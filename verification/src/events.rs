//! What becomes of the matches that bwatch reports.

use crate::cln::{
    add_outpoint_watch, add_script_watches, decoded_transaction, outpoint_watch_call,
    outpoint_watch_is_asked, owners_rescan_call, owners_rescan_is_asked, parse_transaction,
    rescan_watch_owners, script_watches_are_asked, script_watches_call, CallModel,
    ParsedTransaction, RpcCall, TransactionModel,
};
use crate::descriptor::{
    branch_range_is_whole, branch_range_result, has_script, hex_encode, hex_text, is_script_of,
    place_result, script_at, DerivedScript, DescriptorSet, ScriptModel, SetModel,
};
use crate::error::{
    caused, plain, refusal_for, refusal_of, refuses, Reason, ReasonModel, Refusal, RefusalModel,
    TrackerError,
};
use crate::frontier::{
    branch_range_end, desired_end, desired_range_end, end_set, greater, set_end, watched_end,
};
use crate::json::{opt_text, Json, JsonModel};
use crate::lifecycle::{scan_pairs, transient_watches};
use crate::model::{
    copy_text, outpoint_owner, outpoint_owner_text, parse_owner, parsed_owner, script_owner_text,
    BwatchMatch, DescriptorRecord, DescriptorStatus, MatchModel, MovementKind, MovementModel,
    OwnerModel, PendingMovement, RecordModel, TrackedUtxo, UtxoModel, WatchOwner, MAX_LOOKAHEAD,
};
use crate::ordered::{models, Duplicate};
use crate::scripts::{
    accepted_configuration_is_sound, config_set, ensure_no_script_overlap, overlap_refusal,
    validate_config,
};
use crate::state::{book_of, AppState, StateModel};
use crate::text::{around, decimal, decimal_text, same_text};
use std::collections::BTreeMap;
use vstd::prelude::*;
use vstd::string::*;

verus! {

/// The payload of a notification: under its topic, or the whole value.
pub open spec fn payload_of(topic: Seq<char>, value: JsonModel) -> JsonModel {
    match value.field(topic) {
        Some(payload) => payload,
        None => value,
    }
}

/// The payload of a notification: under its topic, or the whole value.
pub fn parse_notification<'a>(topic: &str, value: &'a Json) -> (r: &'a Json)
    ensures
        r@ == payload_of(topic@, value@),
{
    match value.get(topic) {
        Some(payload) => payload,
        None => value,
    }
}

/// Refuses an index at or beyond the end of what is watched.
pub fn ensure_derivation_index_is_watched(derivation_index: u32, range_end: u32) -> (r: Result<
    (),
    TrackerError,
>)
    ensures
        match r {
            Ok(_) => derivation_index < range_end,
            Err(e) => derivation_index >= range_end && e == TrackerError::IndexUnwatched,
        },
{
    if derivation_index < range_end {
        Ok(())
    } else {
        Err(TrackerError::IndexUnwatched)
    }
}

/// Whether a block is not before the birth of a descriptor.
pub fn is_at_or_after_birthheight(blockheight: u32, birthheight: u32) -> (r: bool)
    ensures
        r == (blockheight >= birthheight),
{
    blockheight >= birthheight
}

/// The id of the movement of a deposit.
pub open spec fn deposit_id(outpoint: Seq<char>) -> Seq<char> {
    "deposit:"@ + outpoint
}

/// The id of the movement of a deposit.
pub fn deposit_movement_id(outpoint: &str) -> (r: String)
    ensures
        r@ == deposit_id(outpoint@),
{
    let mut r = "deposit:".to_owned();
    r.append(outpoint);
    r
}

/// The id of the movement of a spend.
pub open spec fn spend_id(outpoint: Seq<char>, spending_txid: Seq<char>) -> Seq<char> {
    "spend:"@ + outpoint + ":"@ + spending_txid
}

/// The id of the movement of a spend.
pub fn spend_movement_id(outpoint: &str, spending_txid: &str) -> (r: String)
    ensures
        r@ == spend_id(outpoint@, spending_txid@),
{
    let mut r = "spend:".to_owned();
    r.append(outpoint);
    r.append(":");
    r.append(spending_txid);
    r
}

/// The descriptor that the owner of a watch names.
pub open spec fn owner_name(owner: OwnerModel) -> Seq<char> {
    match owner {
        OwnerModel::Script { name, .. } => name,
        OwnerModel::Outpoint { name, .. } => name,
    }
}

/// The descriptor that the owner of a watch names.
pub fn descriptor_name(owner: &WatchOwner) -> (r: &String)
    ensures
        r@ == owner_name(owner@),
{
    match owner {
        WatchOwner::Script { name, .. } => name,
        WatchOwner::Outpoint { name, .. } => name,
    }
}

/// What a match is taken for.
#[derive(Clone, Debug, PartialEq, Eq)]
pub enum MatchRoute {
    /// A match of another plugin.
    Foreign,
    /// An output of a script of a descriptor.
    Deposit { name: String, branch: u32, index: u32 },
    /// A spend of an output of a descriptor.
    Spend { name: String, outpoint: String },
}

/// What a [`MatchRoute`] stands for.
#[verifier::ext_equal]
pub enum RouteModel {
    Foreign,
    Deposit { name: Seq<char>, branch: u32, index: u32 },
    Spend { name: Seq<char>, outpoint: Seq<char> },
}

impl View for MatchRoute {
    type V = RouteModel;

    open spec fn view(&self) -> RouteModel {
        match *self {
            MatchRoute::Foreign => RouteModel::Foreign,
            MatchRoute::Deposit { name, branch, index } => RouteModel::Deposit {
                name: name@,
                branch,
                index,
            },
            MatchRoute::Spend { name, outpoint } => RouteModel::Spend {
                name: name@,
                outpoint: outpoint@,
            },
        }
    }
}

/// A match of a scan of history that is a spend: it names the script under
/// which the output was found.
pub open spec fn is_historical_spend(event: MatchModel) -> bool {
    event.historical_scan && event.watch_type == "outpoint"@
}

/// The outpoint that an input of a transaction spends.
pub open spec fn spent_by_input(tx: TransactionModel, index: u32) -> Option<Seq<char>> {
    if index < tx.inputs.len() {
        Some(tx.inputs[index as int])
    } else {
        None
    }
}

/// What a match is taken for.
pub open spec fn route_of(event: MatchModel) -> Result<RouteModel, ReasonModel> {
    match parsed_owner(event.owner) {
        None => Ok(RouteModel::Foreign),
        Some(OwnerModel::Outpoint { name, outpoint }) => Ok(RouteModel::Spend { name, outpoint }),
        Some(OwnerModel::Script { name, branch, index }) => if is_historical_spend(event) {
            match (event.tx, event.index) {
                (None, _) => Err(plain(TrackerError::HistoricalTransactionMissing)),
                (Some(_), None) => Err(plain(TrackerError::HistoricalIndexMissing)),
                (Some(raw), Some(input)) => match decoded_transaction(raw) {
                    Err(cause) => Err(caused(TrackerError::TransactionInvalid, cause)),
                    Ok(tx) => match spent_by_input(tx, input) {
                        None => Err(plain(TrackerError::HistoricalInputOutside)),
                        Some(outpoint) => Ok(RouteModel::Spend { name, outpoint }),
                    },
                },
            }
        } else {
            Ok(RouteModel::Deposit { name, branch, index })
        },
    }
}

/// The outpoint that an input of a transaction spends.
pub fn input_outpoint(tx: &ParsedTransaction, index: u32) -> (r: Option<String>)
    ensures
        opt_text(r) == spent_by_input(tx@, index),
{
    let position = index as usize;
    if position < tx.inputs.len() {
        assert(tx@.inputs[index as int] == tx.inputs[index as int]@);
        Some(tx.inputs[position].clone())
    } else {
        None
    }
}

/// Decides what a match is taken for.
pub fn route_match(event: &BwatchMatch) -> (r: Result<MatchRoute, Reason>)
    ensures
        (match r {
            Ok(route) => Ok(route@),
            Err(e) => Err(e@),
        }) == route_of(event@),
{
    match parse_owner(event.owner.as_str()) {
        None => Ok(MatchRoute::Foreign),
        Some(WatchOwner::Outpoint { name, outpoint }) => Ok(MatchRoute::Spend { name, outpoint }),
        Some(WatchOwner::Script { name, branch, index }) => {
            if event.historical_scan && same_text(event.watch_type.as_str(), "outpoint") {
                let raw = match &event.tx {
                    None => {
                        return Err(Reason::of(TrackerError::HistoricalTransactionMissing));
                    },
                    Some(raw) => raw,
                };
                let input = match event.index {
                    None => {
                        return Err(Reason::of(TrackerError::HistoricalIndexMissing));
                    },
                    Some(input) => input,
                };
                match parse_transaction(raw.as_str()) {
                    Err(e) => Err(e),
                    Ok(tx) => match input_outpoint(&tx, input) {
                        None => Err(Reason::of(TrackerError::HistoricalInputOutside)),
                        Some(outpoint) => Ok(MatchRoute::Spend { name, outpoint }),
                    },
                }
            } else {
                Ok(MatchRoute::Deposit { name, branch, index })
            }
        },
    }
}

/// An output that a match reports.
#[derive(Clone, Debug, PartialEq, Eq)]
pub struct ObservedOutput {
    pub outpoint: String,
    pub amount_msat: u64,
    pub scriptpubkey: String,
}

/// What an [`ObservedOutput`] stands for.
#[verifier::ext_equal]
pub struct ObservedModel {
    pub outpoint: Seq<char>,
    pub amount_msat: u64,
    pub scriptpubkey: Seq<char>,
}

impl View for ObservedOutput {
    type V = ObservedModel;

    open spec fn view(&self) -> ObservedModel {
        ObservedModel {
            outpoint: self.outpoint@,
            amount_msat: self.amount_msat,
            scriptpubkey: self.scriptpubkey@,
        }
    }
}

/// The outpoint of an output of a transaction.
pub open spec fn outpoint_text(txid: Seq<char>, index: u32) -> Seq<char> {
    txid + ":"@ + decimal_text(index as nat)
}

/// An output of a transaction, with its amount in millisatoshis.
pub open spec fn output_of(tx: TransactionModel, index: u32) -> Result<
    ObservedModel,
    ReasonModel,
> {
    if index >= tx.outputs.len() {
        Err(plain(TrackerError::OutputOutside))
    } else {
        let output = tx.outputs[index as int];
        if output.value_sat * 1000 > u64::MAX {
            Err(plain(TrackerError::AmountTooLarge))
        } else {
            Ok(
                ObservedModel {
                    outpoint: outpoint_text(tx.txid, index),
                    amount_msat: (output.value_sat * 1000) as u64,
                    scriptpubkey: hex_text(output.script),
                },
            )
        }
    }
}

/// What a reading of an output stands for.
pub open spec fn observed_result(r: Result<ObservedOutput, Reason>) -> Result<
    ObservedModel,
    ReasonModel,
> {
    match r {
        Ok(output) => Ok(output@),
        Err(e) => Err(e@),
    }
}

/// Reads an output of a transaction, with its amount in millisatoshis.
pub fn transaction_output(tx: &ParsedTransaction, index: u32) -> (r: Result<
    ObservedOutput,
    Reason,
>)
    ensures
        observed_result(r) == output_of(tx@, index),
{
    let position = index as usize;
    if position >= tx.outputs.len() {
        return Err(Reason::of(TrackerError::OutputOutside));
    }
    let output = &tx.outputs[position];
    assert(tx@.outputs[index as int] == output@);
    match output.value_sat.checked_mul(1000) {
        None => Err(Reason::of(TrackerError::AmountTooLarge)),
        Some(amount_msat) => Ok(
            ObservedOutput {
                outpoint: around(tx.txid.as_str(), ":", decimal(index as u64).as_str()),
                amount_msat,
                scriptpubkey: hex_encode(&output.script),
            },
        ),
    }
}

/// The output that a match of a script reports.
pub open spec fn matched_output(event: MatchModel) -> Result<ObservedModel, ReasonModel> {
    if event.watch_type != "scriptpubkey"@ {
        Err(plain(TrackerError::NotScriptMatch))
    } else {
        match (event.tx, event.index) {
            (None, _) => Err(plain(TrackerError::ScriptTransactionMissing)),
            (Some(_), None) => Err(plain(TrackerError::ScriptIndexMissing)),
            (Some(raw), Some(index)) => match decoded_transaction(raw) {
                Err(cause) => Err(caused(TrackerError::TransactionInvalid, cause)),
                Ok(tx) => output_of(tx, index),
            },
        }
    }
}

/// Reads the output that a match of a script reports.
pub fn read_deposit(event: &BwatchMatch) -> (r: Result<ObservedOutput, Reason>)
    ensures
        observed_result(r) == matched_output(event@),
{
    if !same_text(event.watch_type.as_str(), "scriptpubkey") {
        return Err(Reason::of(TrackerError::NotScriptMatch));
    }
    let raw = match &event.tx {
        None => {
            return Err(Reason::of(TrackerError::ScriptTransactionMissing));
        },
        Some(raw) => raw,
    };
    let index = match event.index {
        None => {
            return Err(Reason::of(TrackerError::ScriptIndexMissing));
        },
        Some(index) => index,
    };
    match parse_transaction(raw.as_str()) {
        Err(e) => Err(e),
        Ok(tx) => transaction_output(&tx, index),
    }
}

/// What a match comes to.
#[derive(Clone, Copy, Debug, PartialEq, Eq, Structural)]
pub enum MatchStep {
    /// The match does not count.
    Ignored,
    /// The match is known. Whether its movement is still pending.
    Known { pending: bool },
    /// The match is new.
    New,
}

/// The record of a descriptor that a match names.
pub open spec fn matched_record(state: StateModel, name: Seq<char>) -> Result<
    RecordModel,
    RefusalModel,
> {
    if state.inner.records.contains_key(name) {
        Ok(state.inner.records[name])
    } else {
        Err(refusal_of(TrackerError::UnknownDescriptor, name))
    }
}

/// The record of a descriptor that a match names.
fn record_of_match<'a>(state: &'a AppState, name: &str) -> (r: Result<
    &'a DescriptorRecord,
    Refusal,
>)
    ensures
        (match r {
            Ok(record) => Ok(record@),
            Err(e) => Err(e@),
        }) == matched_record(state@, name@),
{
    match state.record(name) {
        Some(record) => Ok(record),
        None => Err(Refusal::of(TrackerError::UnknownDescriptor, name)),
    }
}

/// The end below which an index of a match must be: a scan of history looks
/// further than what is watched.
pub open spec fn match_end(record: RecordModel, historical_scan: bool) -> u32 {
    if historical_scan {
        MAX_LOOKAHEAD
    } else {
        record.range_end
    }
}

/// What an output at a place of a descriptor comes to.
pub open spec fn deposit_step(
    state: StateModel,
    name: Seq<char>,
    branch: u32,
    index: u32,
    event: MatchModel,
    output: ObservedModel,
) -> Result<MatchStep, RefusalModel> {
    match matched_record(state, name) {
        Err(refusal) => Err(refusal),
        Ok(record) => if record.status == DescriptorStatus::Deleting || event.blockheight
            < record.config.birthheight {
            Ok(MatchStep::Ignored)
        } else if index >= match_end(record, event.historical_scan) {
            Err(refusal_of(TrackerError::IndexUnwatched, name))
        } else {
            match config_set(record.config, state.network) {
                Err(e) => Err(refusal_for(e, state.network)),
                Ok(set) => match place_result(set, branch, index) {
                    Err(e) => Err(refusal_for(e, name)),
                    Ok(script) => if script.scriptpubkey != output.scriptpubkey {
                        Err(refusal_of(TrackerError::ScriptMismatch, name))
                    } else if !record.utxos.contains_key(output.outpoint) {
                        Ok(MatchStep::New)
                    } else if record.utxos[output.outpoint].amount_msat != output.amount_msat {
                        Err(refusal_of(TrackerError::AmountChanged, name))
                    } else {
                        Ok(
                            MatchStep::Known {
                                pending: record.pending_movements.contains_key(
                                    deposit_id(output.outpoint),
                                ),
                            },
                        )
                    },
                },
            }
        },
    }
}

/// What a step, or its refusal, stands for.
pub open spec fn step_result(r: Result<MatchStep, Refusal>) -> Result<MatchStep, RefusalModel> {
    match r {
        Ok(step) => Ok(step),
        Err(e) => Err(e@),
    }
}

/// Decides what an output at a place of a descriptor comes to.
pub fn handle_deposit(
    state: &AppState,
    name: &str,
    branch: u32,
    index: u32,
    event: &BwatchMatch,
    output: &ObservedOutput,
) -> (r: Result<MatchStep, Refusal>)
    ensures
        step_result(r) == deposit_step(state@, name@, branch, index, event@, output@),
{
    let record = match record_of_match(state, name) {
        Err(e) => {
            return Err(e);
        },
        Ok(record) => record,
    };
    if record.status == DescriptorStatus::Deleting || !is_at_or_after_birthheight(
        event.blockheight,
        record.config.birthheight,
    ) {
        return Ok(MatchStep::Ignored);
    }
    let range_end: u32 = if event.historical_scan {
        MAX_LOOKAHEAD
    } else {
        record.range_end
    };
    match ensure_derivation_index_is_watched(index, range_end) {
        Err(e) => {
            return Err(Refusal::of(e, name));
        },
        Ok(_) => {},
    }
    let network = state.network.as_str();
    let descriptor = match validate_config(&record.config, network) {
        Err(e) => {
            return Err(e.about(network));
        },
        Ok(descriptor) => descriptor,
    };
    match descriptor.derive_one(branch, index) {
        Err(e) => {
            return Err(e.about(name));
        },
        Ok(script) => {
            if !same_text(script.scriptpubkey.as_str(), output.scriptpubkey.as_str()) {
                return Err(Refusal::of(TrackerError::ScriptMismatch, name));
            }
        },
    }
    match record.utxos.get(output.outpoint.as_str()) {
        None => Ok(MatchStep::New),
        Some(existing) => if existing.amount_msat != output.amount_msat {
            Err(Refusal::of(TrackerError::AmountChanged, name))
        } else {
            let id = deposit_movement_id(output.outpoint.as_str());
            Ok(MatchStep::Known { pending: record.pending_movements.contains(id.as_str()) })
        },
    }
}

/// The ends of the first `count` branches of a record, none below an end, and
/// the scripts by which they grow.
pub open spec fn grown_branches(record: RecordModel, set: SetModel, end: u32, count: nat) -> Result<
    (Map<u32, u32>, Seq<ScriptModel>),
    ReasonModel,
>
    decreases count,
{
    if count == 0 {
        Ok((record.range_ends, Seq::empty()))
    } else {
        let branch = (count - 1) as u32;
        match grown_branches(record, set, end, (count - 1) as nat) {
            Err(e) => Err(e),
            Ok((ends, scripts)) => if watched_end(record, branch) >= end {
                Ok((ends, scripts))
            } else {
                match branch_range_result(set, branch, watched_end(record, branch), end) {
                    Err(e) => Err(e),
                    Ok(more) => Ok((ends.insert(branch, end), scripts + more)),
                }
            },
        }
    }
}

/// What was refused for the first branches is refused for more of them.
proof fn refused_growth_stays(
    record: RecordModel,
    set: SetModel,
    end: u32,
    count: nat,
    more: nat,
)
    requires
        count <= more,
        grown_branches(record, set, end, count) is Err,
    ensures
        grown_branches(record, set, end, more) == grown_branches(record, set, end, count),
    decreases more,
{
    if count < more {
        refused_growth_stays(record, set, end, count, (more - 1) as nat);
    }
}

/// Grows the branches of a record to an end.
fn grow_branches(record: &DescriptorRecord, descriptor: &DescriptorSet, end: u32) -> (r: Result<
    (BTreeMap<u32, u32>, Vec<DerivedScript>),
    Reason,
>)
    ensures
        (match r {
            Ok((ends, scripts)) => Ok((ends@, models(scripts@))),
            Err(e) => Err(e@),
        }) == grown_branches(record@, descriptor@, end, descriptor@.branches),
{
    let count = descriptor.branch_count() as u32;
    let mut ends = record.range_ends.clone();
    let mut scripts: Vec<DerivedScript> = Vec::new();
    let mut branch: u32 = 0;
    assert(models(scripts@) =~= Seq::<ScriptModel>::empty());
    while branch < count
        invariant
            branch <= count,
            count == descriptor@.branches,
            Ok::<(Map<u32, u32>, Seq<ScriptModel>), ReasonModel>((ends@, models(scripts@)))
                == grown_branches(record@, descriptor@, end, branch as nat),
        decreases count - branch,
    {
        let from = branch_range_end(record, branch);
        if from < end {
            match descriptor.derive_branch_range(branch, from, end) {
                Err(e) => {
                    proof {
                        refused_growth_stays(
                            record@,
                            descriptor@,
                            end,
                            (branch + 1) as nat,
                            count as nat,
                        );
                    }
                    return Err(e);
                },
                Ok(more) => {
                    let ghost before = models(scripts@);
                    let mut more = more;
                    let ghost added = more@;
                    scripts.append(&mut more);
                    assert(models(scripts@) =~= before + models(added));
                    set_end(&mut ends, branch, end, false);
                },
            }
        }
        branch = branch + 1;
    }
    Ok((ends, scripts))
}

/// A use of an index is a reason to look further: it is the last used one, or
/// a branch is watched less than a lookahead beyond it.
pub open spec fn looks_further(record: RecordModel, index: u32, added: Seq<ScriptModel>) -> bool {
    ||| record.last_used_index is None
    ||| index > record.last_used_index->Some_0
    ||| added.len() > 0
}

/// A record with the frontier moved by a use of an index on a branch, and the
/// scripts by which it grows.
pub open spec fn frontier_moved(
    record: RecordModel,
    set: SetModel,
    branch: u32,
    index: u32,
) -> Result<(RecordModel, Seq<ScriptModel>), ReasonModel> {
    match desired_end(Some(index), record.config.lookahead) {
        Err(e) => Err(plain(e)),
        Ok(end) => match grown_branches(record, set, end, set.branches) {
            Err(e) => Err(e),
            Ok((ends, added)) => Ok(
                (
                    RecordModel {
                        range_ends: ends,
                        range_end: if end > record.range_end {
                            end
                        } else {
                            record.range_end
                        },
                        last_used_indexes: end_set(record.last_used_indexes, branch, index, true),
                        last_used_index: greater(record.last_used_index, Some(index)),
                        status: if looks_further(record, index, added) {
                            DescriptorStatus::Syncing
                        } else {
                            record.status
                        },
                        ..record
                    },
                    added,
                ),
            ),
        },
    }
}

/// An output as it is kept.
pub open spec fn kept_output(
    output: ObservedModel,
    branch: u32,
    index: u32,
    blockheight: u32,
    annotation: Option<Seq<char>>,
) -> UtxoModel {
    UtxoModel {
        outpoint: output.outpoint,
        amount_msat: output.amount_msat,
        derivation_index: index,
        branch,
        deposit_height: blockheight,
        spent_by: None,
        spent_height: None,
        annotation,
    }
}

/// The movement of a deposit.
pub open spec fn deposit_movement(
    output: ObservedModel,
    blockheight: u32,
    timestamp: u64,
    annotation: Option<Seq<char>>,
) -> MovementModel {
    MovementModel {
        id: deposit_id(output.outpoint),
        kind: MovementKind::Deposit,
        outpoint: output.outpoint,
        amount_msat: output.amount_msat,
        blockheight,
        timestamp,
        spending_txid: None,
        description: annotation,
    }
}

/// A record with an output and its movement.
pub open spec fn output_kept(
    record: RecordModel,
    output: ObservedModel,
    branch: u32,
    index: u32,
    blockheight: u32,
    timestamp: u64,
    annotation: Option<Seq<char>>,
) -> RecordModel {
    RecordModel {
        utxos: record.utxos.insert(
            output.outpoint,
            kept_output(output, branch, index, blockheight, annotation),
        ),
        pending_movements: record.pending_movements.insert(
            deposit_id(output.outpoint),
            deposit_movement(output, blockheight, timestamp, annotation),
        ),
        ..record
    }
}

/// The record of a descriptor after a deposit, and the scripts by which it
/// grows, where no other descriptor watches any of them.
pub open spec fn deposit_recorded(
    state: StateModel,
    name: Seq<char>,
    branch: u32,
    index: u32,
    output: ObservedModel,
    blockheight: u32,
    timestamp: u64,
    annotation: Option<Seq<char>>,
) -> Result<(RecordModel, Seq<ScriptModel>), RefusalModel> {
    match matched_record(state, name) {
        Err(refusal) => Err(refusal),
        Ok(record) => match config_set(record.config, state.network) {
            Err(e) => Err(refusal_for(e, state.network)),
            Ok(set) => match frontier_moved(record, set, branch, index) {
                Err(e) => Err(refusal_for(e, name)),
                Ok((moved, added)) => match overlap_refusal(
                    name,
                    added,
                    state.inner.records,
                    state.network,
                ) {
                    Some(refusal) => Err(refusal),
                    None => Ok(
                        (
                            output_kept(
                                moved,
                                output,
                                branch,
                                index,
                                blockheight,
                                timestamp,
                                annotation,
                            ),
                            added,
                        ),
                    ),
                },
            },
        },
    }
}

/// A record after a deposit, and the scripts by which it grows.
#[derive(Debug)]
pub struct RecordedDeposit {
    pub record: DescriptorRecord,
    pub added: Vec<DerivedScript>,
}

/// Records a deposit of a descriptor, and extends what is watched so that a
/// whole lookahead beyond its index is.
pub fn record_deposit(
    state: &AppState,
    name: &str,
    branch: u32,
    index: u32,
    output: &ObservedOutput,
    blockheight: u32,
    timestamp: u64,
    annotation: &Option<String>,
) -> (r: Result<RecordedDeposit, Refusal>)
    ensures
        (match r {
            Ok(recorded) => Ok((recorded.record@, models(recorded.added@))),
            Err(e) => Err(e@),
        }) == deposit_recorded(
            state@,
            name@,
            branch,
            index,
            output@,
            blockheight,
            timestamp,
            opt_text(*annotation),
        ),
{
    let network = state.network.as_str();
    let record = match record_of_match(state, name) {
        Err(e) => {
            return Err(e);
        },
        Ok(record) => record,
    };
    let descriptor = match validate_config(&record.config, network) {
        Err(e) => {
            return Err(e.about(network));
        },
        Ok(descriptor) => descriptor,
    };
    let end = match desired_range_end(Some(index), record.config.lookahead) {
        Err(e) => {
            return Err(Refusal::of(e, name));
        },
        Ok(end) => end,
    };
    let (ends, added) = match grow_branches(record, &descriptor, end) {
        Err(e) => {
            return Err(e.about(name));
        },
        Ok(grown) => grown,
    };
    match ensure_no_script_overlap(name, &added, state.records_snapshot(), network) {
        Err(e) => {
            return Err(e);
        },
        Ok(_) => {},
    }
    let last_use = match record.last_used_index {
        None => true,
        Some(last) => index > last,
    };
    let mut updated = record.duplicate();
    updated.range_ends = ends;
    if end > updated.range_end {
        updated.range_end = end;
    }
    set_end(&mut updated.last_used_indexes, branch, index, true);
    if last_use {
        updated.last_used_index = Some(index);
    }
    if last_use || added.len() > 0 {
        updated.status = DescriptorStatus::Syncing;
    }
    updated.utxos.insert(
        output.outpoint.clone(),
        TrackedUtxo {
            outpoint: output.outpoint.clone(),
            amount_msat: output.amount_msat,
            derivation_index: index,
            branch,
            deposit_height: blockheight,
            spent_by: None,
            spent_height: None,
            annotation: copy_text(annotation),
        },
    );
    let id = deposit_movement_id(output.outpoint.as_str());
    updated.pending_movements.insert(
        id.clone(),
        PendingMovement {
            id,
            kind: MovementKind::Deposit,
            outpoint: output.outpoint.clone(),
            amount_msat: output.amount_msat,
            blockheight,
            timestamp,
            spending_txid: None,
            description: copy_text(annotation),
        },
    );
    Ok(RecordedDeposit { record: updated, added })
}

/// What a book of addresses has for the annotation of a place.
pub open spec fn is_annotation_at(
    book: Seq<crate::model::IssuedModel>,
    branch: u32,
    index: u32,
    annotation: Option<Seq<char>>,
) -> bool {
    match annotation {
        Some(_) => exists|x: crate::model::IssuedModel| #[trigger]
            book.contains(x) && x.branch == branch && x.index == index && x.annotation
                == annotation,
        None => forall|x: crate::model::IssuedModel| #[trigger]
            book.contains(x) && x.branch == branch && x.index == index ==> x.annotation is None,
    }
}

/// The annotation of the address that was given out for a place, if any.
pub fn issued_annotation(state: &AppState, name: &str, branch: u32, index: u32) -> (r: Option<
    String,
>)
    ensures
        is_annotation_at(book_of(state@, name@), branch, index, opt_text(r)),
{
    match state.issued_address(name, branch, index) {
        Some(address) => {
            let ghost found = address@;
            let ghost book = book_of(state@, name@);
            assert(book.contains(found));
            assert forall|x: crate::model::IssuedModel| #[trigger]
                book.contains(x) && x.branch == branch && x.index == index implies x == found by {
                let i = choose|i: int| 0 <= i < book.len() && book[i] == x;
                let j = choose|j: int| 0 <= j < book.len() && book[j] == found;
                if i < j {
                    assert(crate::state::place_before(book[i], book[j]));
                } else if j < i {
                    assert(crate::state::place_before(book[j], book[i]));
                }
            }
            copy_text(&address.annotation)
        },
        None => None,
    }
}

/// The calls that follow a deposit that was stored: the new scripts are watched
/// and scanned for, and the output is watched.
pub open spec fn deposit_calls(
    record: RecordModel,
    added: Seq<ScriptModel>,
    outpoint: Seq<char>,
    blockheight: u32,
) -> Seq<CallModel> {
    let pairs = scan_pairs(record.config.name, added);
    let owners = pairs.map_values(|pair: (Seq<char>, Seq<char>)| pair.0);
    let watches = script_watches_call(pairs, record.config.birthheight);
    let rescan = owners_rescan_call(owners, record.config.birthheight);
    (match watches {
        Some(call) => seq![call],
        None => Seq::empty(),
    }) + (match rescan {
        Some(call) => seq![call],
        None => Seq::empty(),
    }) + seq![
        outpoint_watch_call(
            outpoint_owner_text(record.config.name, outpoint),
            outpoint,
            blockheight,
            true,
        ),
    ]
}

/// The calls that follow a deposit that was stored. After a match of a scan of
/// history there are none: its watches are installed at the end of the scan.
pub open spec fn calls_after_deposit(
    record: RecordModel,
    added: Seq<ScriptModel>,
    outpoint: Seq<char>,
    event: MatchModel,
) -> Seq<CallModel> {
    if event.historical_scan {
        Seq::empty()
    } else {
        deposit_calls(record, added, outpoint, event.blockheight)
    }
}

/// The calls that follow a deposit that was stored. After a match of a scan of
/// history there are none: its watches are installed at the end of the scan.
pub fn watch_deposit(
    record: &DescriptorRecord,
    added: &Vec<DerivedScript>,
    outpoint: &str,
    event: &BwatchMatch,
) -> (r: Vec<RpcCall>)
    ensures
        models(r@) == calls_after_deposit(record@, models(added@), outpoint@, event@),
{
    let mut calls: Vec<RpcCall> = Vec::new();
    if event.historical_scan {
        assert(models(calls@) =~= Seq::<CallModel>::empty());
        return calls;
    }
    let name = record.config.name.as_str();
    let pairs = transient_watches(name, added);
    let mut owners: Vec<String> = Vec::new();
    let mut i: usize = 0;
    while i < pairs.len()
        invariant
            i <= pairs.len(),
            owners.len() == i,
            forall|j: int| 0 <= j < i ==> #[trigger] owners[j]@ == pairs[j].0@,
        decreases pairs.len() - i,
    {
        owners.push(pairs[i].0.clone());
        i = i + 1;
    }
    assert(models(owners@) =~= models(pairs@).map_values(
        |pair: (Seq<char>, Seq<char>)| pair.0,
    ));
    match add_script_watches(&pairs, record.config.birthheight) {
        Some(call) => {
            calls.push(call);
        },
        None => {},
    }
    match rescan_watch_owners(&owners, record.config.birthheight) {
        Some(call) => {
            calls.push(call);
        },
        None => {},
    }
    let owner = outpoint_owner(name, outpoint);
    calls.push(add_outpoint_watch(owner.as_str(), outpoint, event.blockheight, true));
    assert(models(calls@) =~= deposit_calls(
        record@,
        models(added@),
        outpoint@,
        event@.blockheight,
    ));
    calls
}

/// A deposit ends the work on a descriptor whose frontier has grown.
pub open spec fn settles(record: RecordModel, historical_scan: bool) -> bool {
    record.status == DescriptorStatus::Syncing && !historical_scan
}

/// A record once the watches that a deposit calls for are there.
pub open spec fn settled(record: RecordModel, historical_scan: bool) -> RecordModel {
    if settles(record, historical_scan) {
        RecordModel { status: DescriptorStatus::Active, ..record }
    } else {
        record
    }
}

/// Activates a descriptor whose frontier has grown, once the watches are
/// there. The record is to be stored where this holds.
pub fn settle_deposit(record: &mut DescriptorRecord, historical_scan: bool) -> (changed: bool)
    ensures
        changed == settles(old(record)@, historical_scan),
        final(record)@ == settled(old(record)@, historical_scan),
{
    if record.status == DescriptorStatus::Syncing && !historical_scan {
        record.status = DescriptorStatus::Active;
        true
    } else {
        false
    }
}

/// The transaction of which an input spends an outpoint.
pub open spec fn spender_of(tx: TransactionModel, index: u32, outpoint: Seq<char>) -> Result<
    Seq<char>,
    ReasonModel,
> {
    match spent_by_input(tx, index) {
        None => Err(plain(TrackerError::InputOutside)),
        Some(spent) => if spent != outpoint {
            Err(plain(TrackerError::InputMismatch))
        } else {
            Ok(tx.txid)
        },
    }
}

/// What a reading of a text stands for.
pub open spec fn text_result(r: Result<String, Reason>) -> Result<Seq<char>, ReasonModel> {
    match r {
        Ok(text) => Ok(text@),
        Err(e) => Err(e@),
    }
}

/// The id of a transaction of which an input spends an outpoint.
pub fn spending_transaction(tx: &ParsedTransaction, index: u32, outpoint: &str) -> (r: Result<
    String,
    Reason,
>)
    ensures
        text_result(r) == spender_of(tx@, index, outpoint@),
{
    match input_outpoint(tx, index) {
        None => Err(Reason::of(TrackerError::InputOutside)),
        Some(spent) => if same_text(spent.as_str(), outpoint) {
            Ok(tx.txid.clone())
        } else {
            Err(Reason::of(TrackerError::InputMismatch))
        },
    }
}

/// The transaction that a match of an outpoint reports.
pub open spec fn matched_spender(event: MatchModel, outpoint: Seq<char>) -> Result<
    Seq<char>,
    ReasonModel,
> {
    if event.watch_type != "outpoint"@ {
        Err(plain(TrackerError::NotOutpointMatch))
    } else {
        match (event.tx, event.index) {
            (None, _) => Err(plain(TrackerError::OutpointTransactionMissing)),
            (Some(_), None) => Err(plain(TrackerError::InputIndexMissing)),
            (Some(raw), Some(index)) => match decoded_transaction(raw) {
                Err(cause) => Err(caused(TrackerError::TransactionInvalid, cause)),
                Ok(tx) => spender_of(tx, index, outpoint),
            },
        }
    }
}

/// Reads the id of the transaction that a match of an outpoint reports.
pub fn read_spend(event: &BwatchMatch, outpoint: &str) -> (r: Result<String, Reason>)
    ensures
        text_result(r) == matched_spender(event@, outpoint@),
{
    if !same_text(event.watch_type.as_str(), "outpoint") {
        return Err(Reason::of(TrackerError::NotOutpointMatch));
    }
    let raw = match &event.tx {
        None => {
            return Err(Reason::of(TrackerError::OutpointTransactionMissing));
        },
        Some(raw) => raw,
    };
    let index = match event.index {
        None => {
            return Err(Reason::of(TrackerError::InputIndexMissing));
        },
        Some(index) => index,
    };
    match parse_transaction(raw.as_str()) {
        Err(e) => Err(e),
        Ok(tx) => spending_transaction(&tx, index, outpoint),
    }
}

/// What a spend of an output of a descriptor comes to.
pub open spec fn spend_step(
    state: StateModel,
    name: Seq<char>,
    outpoint: Seq<char>,
    spending_txid: Seq<char>,
) -> Result<MatchStep, RefusalModel> {
    match matched_record(state, name) {
        Err(refusal) => Err(refusal),
        Ok(record) => if record.status == DescriptorStatus::Deleting {
            Ok(MatchStep::Ignored)
        } else if !record.utxos.contains_key(outpoint) {
            Err(refusal_of(TrackerError::UnknownOutpoint, outpoint))
        } else {
            match record.utxos[outpoint].spent_by {
                None => Ok(MatchStep::New),
                Some(spent_by) => if spent_by == spending_txid {
                    Ok(
                        MatchStep::Known {
                            pending: record.pending_movements.contains_key(
                                spend_id(outpoint, spending_txid),
                            ),
                        },
                    )
                } else {
                    Err(refusal_of(TrackerError::DifferentSpend, name))
                },
            }
        },
    }
}

/// Decides what a spend of an output of a descriptor comes to.
pub fn handle_spend(state: &AppState, name: &str, outpoint: &str, spending_txid: &str) -> (r:
    Result<MatchStep, Refusal>)
    ensures
        step_result(r) == spend_step(state@, name@, outpoint@, spending_txid@),
{
    let record = match record_of_match(state, name) {
        Err(e) => {
            return Err(e);
        },
        Ok(record) => record,
    };
    if record.status == DescriptorStatus::Deleting {
        return Ok(MatchStep::Ignored);
    }
    match record.utxos.get(outpoint) {
        None => Err(Refusal::of(TrackerError::UnknownOutpoint, outpoint)),
        Some(output) => match &output.spent_by {
            None => Ok(MatchStep::New),
            Some(spent_by) => if same_text(spent_by.as_str(), spending_txid) {
                let id = spend_movement_id(outpoint, spending_txid);
                Ok(MatchStep::Known { pending: record.pending_movements.contains(id.as_str()) })
            } else {
                Err(Refusal::of(TrackerError::DifferentSpend, name))
            },
        },
    }
}

/// The movement of a spend.
pub open spec fn spend_movement(
    output: UtxoModel,
    outpoint: Seq<char>,
    spending_txid: Seq<char>,
    blockheight: u32,
    timestamp: u64,
) -> MovementModel {
    MovementModel {
        id: spend_id(outpoint, spending_txid),
        kind: MovementKind::Spend,
        outpoint,
        amount_msat: output.amount_msat,
        blockheight,
        timestamp,
        spending_txid: Some(spending_txid),
        description: None,
    }
}

/// A record with an output that it holds spent, and the movement of the spend.
pub open spec fn output_spent(
    record: RecordModel,
    outpoint: Seq<char>,
    spending_txid: Seq<char>,
    blockheight: u32,
    timestamp: u64,
) -> RecordModel {
    let output = record.utxos[outpoint];
    RecordModel {
        utxos: record.utxos.insert(
            outpoint,
            UtxoModel {
                spent_by: Some(spending_txid),
                spent_height: Some(blockheight),
                ..output
            },
        ),
        pending_movements: record.pending_movements.insert(
            spend_id(outpoint, spending_txid),
            spend_movement(output, outpoint, spending_txid, blockheight, timestamp),
        ),
        ..record
    }
}

/// The record of a descriptor with one of its outputs spent.
pub open spec fn spend_recorded(
    state: StateModel,
    name: Seq<char>,
    outpoint: Seq<char>,
    spending_txid: Seq<char>,
    blockheight: u32,
    timestamp: u64,
) -> Result<RecordModel, RefusalModel> {
    match matched_record(state, name) {
        Err(refusal) => Err(refusal),
        Ok(record) => if record.utxos.contains_key(outpoint) {
            Ok(output_spent(record, outpoint, spending_txid, blockheight, timestamp))
        } else {
            Err(refusal_of(TrackerError::UnknownOutpoint, outpoint))
        },
    }
}

/// Records a spend of an output of a descriptor.
pub fn record_spend(
    state: &AppState,
    name: &str,
    outpoint: &str,
    spending_txid: &str,
    blockheight: u32,
    timestamp: u64,
) -> (r: Result<DescriptorRecord, Refusal>)
    ensures
        crate::lifecycle::record_result(r) == spend_recorded(
            state@,
            name@,
            outpoint@,
            spending_txid@,
            blockheight,
            timestamp,
        ),
{
    let record = match record_of_match(state, name) {
        Err(e) => {
            return Err(e);
        },
        Ok(record) => record,
    };
    let mut output = match record.utxos.get(outpoint) {
        None => {
            return Err(Refusal::of(TrackerError::UnknownOutpoint, outpoint));
        },
        Some(output) => output.duplicate(),
    };
    let amount_msat = output.amount_msat;
    output.spent_by = Some(spending_txid.to_owned());
    output.spent_height = Some(blockheight);
    let mut updated = record.duplicate();
    updated.utxos.insert(outpoint.to_owned(), output);
    let id = spend_movement_id(outpoint, spending_txid);
    updated.pending_movements.insert(
        id.clone(),
        PendingMovement {
            id,
            kind: MovementKind::Spend,
            outpoint: outpoint.to_owned(),
            amount_msat,
            blockheight,
            timestamp,
            spending_txid: Some(spending_txid.to_owned()),
            description: None,
        },
    );
    Ok(updated)
}

/// A match of a script reports the output at its own index: it has that output's
/// value, a thousand times as many millisatoshis as satoshis, that output's
/// script, and an outpoint that names the transaction and the index. It is
/// refused only where there is no such output, or where the value is too large.
pub proof fn deposit_is_the_matched_output(event: MatchModel, tx: TransactionModel, index: u32)
    requires
        event.watch_type == "scriptpubkey"@,
        event.tx is Some,
        decoded_transaction(event.tx->Some_0) == Ok::<TransactionModel, Seq<char>>(tx),
        event.index == Some(index),
    ensures
        matched_output(event) matches Ok(output) ==> {
            &&& index < tx.outputs.len()
            &&& output.amount_msat == 1000 * tx.outputs[index as int].value_sat
            &&& output.scriptpubkey == hex_text(tx.outputs[index as int].script)
            &&& output.outpoint == tx.txid + ":"@ + decimal_text(index as nat)
        },
        matched_output(event) is Ok <==> index < tx.outputs.len() && 1000
            * tx.outputs[index as int].value_sat <= u64::MAX,
{
}

/// What a match of a script reports does not depend on the other outputs of its
/// transaction, nor on what the transaction spends.
pub proof fn other_outputs_do_not_matter(tx: TransactionModel, other: TransactionModel, index: u32)
    requires
        index < tx.outputs.len(),
        index < other.outputs.len(),
        tx.txid == other.txid,
        tx.outputs[index as int] == other.outputs[index as int],
    ensures
        output_of(tx, index) == output_of(other, index),
{
}

/// The outputs of one transaction have different outpoints.
pub proof fn outputs_have_their_own_outpoints(tx: TransactionModel, index: u32, other: u32)
    requires
        output_of(tx, index) is Ok,
        output_of(tx, other) is Ok,
        output_of(tx, index)->Ok_0.outpoint == output_of(tx, other)->Ok_0.outpoint,
    ensures
        index == other,
{
    let before = (tx.txid + ":"@).len() as int;
    let a = decimal_text(index as nat);
    let b = decimal_text(other as nat);
    assert(outpoint_text(tx.txid, index).skip(before) =~= a);
    assert(outpoint_text(tx.txid, other).skip(before) =~= b);
    crate::text::decimal_round_trip(index as nat, u32::MAX as nat);
    crate::text::decimal_round_trip(other as nat, u32::MAX as nat);
}

/// A match of an outpoint is a spend of the outpoint that the input at its own
/// index spends: it is accepted, with the id of the transaction, exactly where
/// that input spends the outpoint, whatever the other inputs spend.
pub proof fn spend_is_of_the_matched_input(
    event: MatchModel,
    tx: TransactionModel,
    index: u32,
    outpoint: Seq<char>,
)
    requires
        event.watch_type == "outpoint"@,
        event.tx is Some,
        decoded_transaction(event.tx->Some_0) == Ok::<TransactionModel, Seq<char>>(tx),
        event.index == Some(index),
    ensures
        matched_spender(event, outpoint) == Ok::<Seq<char>, ReasonModel>(tx.txid) <==> index
            < tx.inputs.len() && tx.inputs[index as int] == outpoint,
        matched_spender(event, outpoint) matches Ok(txid) ==> txid == tx.txid,
        spent_by_input(tx, index) == (if index < tx.inputs.len() {
            Some(tx.inputs[index as int])
        } else {
            None
        }),
{
}

/// A match of a scan of history that was found under a script of a descriptor is
/// a spend by the descriptor of what the input at its own index spends.
pub proof fn historical_spend_is_of_the_matched_input(
    event: MatchModel,
    tx: TransactionModel,
    index: u32,
    name: Seq<char>,
    place: u32,
    branch: u32,
)
    requires
        event.historical_scan,
        event.watch_type == "outpoint"@,
        event.tx is Some,
        decoded_transaction(event.tx->Some_0) == Ok::<TransactionModel, Seq<char>>(tx),
        event.index == Some(index),
        parsed_owner(event.owner) == Some((OwnerModel::Script { name, branch, index: place })),
    ensures
        index < tx.inputs.len() ==> route_of(event) == Ok::<RouteModel, ReasonModel>(
            RouteModel::Spend { name, outpoint: tx.inputs[index as int] },
        ),
        index >= tx.inputs.len() ==> route_of(event) is Err,
{
}

/// A live match of a script is a deposit at the place that its owner names, one
/// of an outpoint is a spend of the outpoint that its owner names, and a match
/// whose owner is not tracker's does not concern it.
pub proof fn live_match_goes_to_its_owner(event: MatchModel)
    requires
        !event.historical_scan || event.watch_type != "outpoint"@,
    ensures
        route_of(event) is Ok,
        parsed_owner(event.owner) is None <==> route_of(event)->Ok_0 is Foreign,
        parsed_owner(event.owner) matches Some(OwnerModel::Script { name, branch, index })
            ==> route_of(event)->Ok_0 == (RouteModel::Deposit { name, branch, index }),
        parsed_owner(event.owner) matches Some(OwnerModel::Outpoint { name, outpoint })
            ==> route_of(event)->Ok_0 == (RouteModel::Spend { name, outpoint }),
{
}

/// A deposit is new exactly where the descriptor is known and not being deleted,
/// the block is not before its birth, the index lies below what is looked for,
/// the script is the one that the descriptor derives for the place, and no
/// output of that outpoint is kept.
pub proof fn deposit_is_new_where_it_is_not_known(
    state: StateModel,
    name: Seq<char>,
    branch: u32,
    index: u32,
    event: MatchModel,
    output: ObservedModel,
)
    ensures
        deposit_step(state, name, branch, index, event, output) == Ok::<MatchStep, RefusalModel>(
            MatchStep::New,
        ) <==> {
            let record = state.inner.records[name];
            let set = config_set(record.config, state.network)->Ok_0;
            &&& state.inner.records.contains_key(name)
            &&& record.status != DescriptorStatus::Deleting
            &&& record.config.birthheight <= event.blockheight
            &&& index < (if event.historical_scan {
                100_000
            } else {
                record.range_end as int
            })
            &&& config_set(record.config, state.network) is Ok
            &&& branch < set.branches
            &&& set.ranged || index == 0
            &&& script_at(set.text, branch, index) matches Ok(bytes) && hex_text(bytes)
                == output.scriptpubkey
            &&& !record.utxos.contains_key(output.outpoint)
        },
        deposit_step(state, name, branch, index, event, output) matches Ok(MatchStep::Known {
            pending,
        }) ==> {
            let record = state.inner.records[name];
            &&& record.utxos.contains_key(output.outpoint)
            &&& record.utxos[output.outpoint].amount_msat == output.amount_msat
            &&& pending == record.pending_movements.contains_key("deposit:"@ + output.outpoint)
        },
{
}

/// A deposit that is recorded is kept under its outpoint, unspent, with its
/// amount, its place and its height, and its movement waits with the same amount,
/// height, time and description. Nothing else that the record has found or waits
/// for changes.
pub proof fn recorded_deposit_is_kept(
    state: StateModel,
    name: Seq<char>,
    branch: u32,
    index: u32,
    output: ObservedModel,
    blockheight: u32,
    timestamp: u64,
    annotation: Option<Seq<char>>,
    other: Seq<char>,
)
    requires
        deposit_recorded(
            state,
            name,
            branch,
            index,
            output,
            blockheight,
            timestamp,
            annotation,
        ) is Ok,
    ensures
        ({
            let before = state.inner.records[name];
            let after = deposit_recorded(
                state,
                name,
                branch,
                index,
                output,
                blockheight,
                timestamp,
                annotation,
            )->Ok_0.0;
            let kept = after.utxos[output.outpoint];
            let id = "deposit:"@ + output.outpoint;
            let movement = after.pending_movements[id];
            &&& state.inner.records.contains_key(name)
            &&& after.utxos.contains_key(output.outpoint)
            &&& kept.outpoint == output.outpoint
            &&& kept.amount_msat == output.amount_msat
            &&& kept.branch == branch
            &&& kept.derivation_index == index
            &&& kept.deposit_height == blockheight
            &&& kept.spent_by is None
            &&& kept.spent_height is None
            &&& kept.annotation == annotation
            &&& after.pending_movements.contains_key(id)
            &&& movement.id == id
            &&& movement.kind == MovementKind::Deposit
            &&& movement.outpoint == output.outpoint
            &&& movement.amount_msat == output.amount_msat
            &&& movement.blockheight == blockheight
            &&& movement.timestamp == timestamp
            &&& movement.description == annotation
            &&& other != output.outpoint ==> after.utxos.contains_key(other)
                == before.utxos.contains_key(other) && after.utxos[other] == before.utxos[other]
            &&& other != id ==> after.pending_movements.contains_key(other)
                == before.pending_movements.contains_key(other) && after.pending_movements[other]
                == before.pending_movements[other]
            &&& after.external_outpoints == before.external_outpoints
            &&& after.next_indexes == before.next_indexes
            &&& after.config == before.config
            &&& after.initial_scan_complete == before.initial_scan_complete
            &&& after.pending_rescan == before.pending_rescan
            &&& after.incident == before.incident
            &&& after.generation == before.generation
        }),
{
}

/// What growing the first branches to an end adds.
proof fn grown_branches_add(record: RecordModel, set: SetModel, end: u32, count: nat)
    requires
        count <= u32::MAX,
        grown_branches(record, set, end, count) is Ok,
    ensures
        ({
            let added = grown_branches(record, set, end, count)->Ok_0.1;
            &&& forall|k: int|
                0 <= k < added.len() ==> is_script_of(
                    #[trigger] added[k],
                    set.text,
                    added[k].branch,
                    added[k].index,
                ) && added[k].branch < count && watched_end(record, added[k].branch)
                    <= added[k].index < end
            &&& set.ranged ==> forall|b: u32, i: u32|
                b < count && watched_end(record, b) <= i < end ==> has_script(added, b, i)
        }),
    decreases count,
{
    if count > 0 {
        let fewer = (count - 1) as nat;
        let b = (count - 1) as u32;
        grown_branches_add(record, set, end, fewer);
        let before = grown_branches(record, set, end, fewer)->Ok_0.1;
        let added = grown_branches(record, set, end, count)->Ok_0.1;
        let from = watched_end(record, b);
        if from < end {
            branch_range_is_whole(set, b, from, end);
            let more = branch_range_result(set, b, from, end)->Ok_0;
            assert(added == before + more);
            assert forall|k: int| 0 <= k < added.len() implies is_script_of(
                #[trigger] added[k],
                set.text,
                added[k].branch,
                added[k].index,
            ) && added[k].branch < count && watched_end(record, added[k].branch) <= added[k].index
                < end by {
                if k < before.len() {
                    assert(added[k] == before[k]);
                } else {
                    assert(added[k] == more[k - before.len()]);
                }
            }
        }
        if set.ranged {
            assert forall|c: u32, i: u32|
                c < count && watched_end(record, c) <= i < end implies has_script(
                added,
                c,
                i,
            ) by {
                if c < fewer {
                    assert(has_script(before, c, i));
                    let k = choose|k: int|
                        0 <= k < before.len() && (#[trigger] before[k]).branch == c
                            && before[k].index == i;
                    assert(added[k] == before[k]);
                } else {
                    let more = branch_range_result(set, b, from, end)->Ok_0;
                    assert(is_script_of(more[i - from], set.text, b, i));
                    assert(added[before.len() + (i - from)] == more[i - from]);
                }
            }
        }
    }
}

/// A use of an index makes a descriptor grow on every branch by the scripts
/// between where it was watched and a whole lookahead beyond the index, and by no
/// others: these are what is watched from then on.
pub proof fn use_adds_the_scripts_up_to_the_gap(
    record: RecordModel,
    set: SetModel,
    branch: u32,
    index: u32,
)
    requires
        frontier_moved(record, set, branch, index) is Ok,
        set.branches <= u32::MAX,
    ensures
        ({
            let added = frontier_moved(record, set, branch, index)->Ok_0.1;
            &&& forall|k: int|
                0 <= k < added.len() ==> is_script_of(
                    #[trigger] added[k],
                    set.text,
                    added[k].branch,
                    added[k].index,
                ) && added[k].branch < set.branches && watched_end(record, added[k].branch)
                    <= added[k].index < index + 1 + record.config.lookahead
            &&& set.ranged ==> forall|b: u32, i: u32|
                b < set.branches && watched_end(record, b) <= i < index + 1
                    + record.config.lookahead ==> has_script(added, b, i)
        }),
{
    let end = desired_end(Some(index), record.config.lookahead)->Ok_0;
    grown_branches_add(record, set, end, set.branches);
}

/// A spend is new exactly where the descriptor is known and not being deleted and
/// keeps the output unspent. One that is known names the same transaction.
pub proof fn spend_is_new_where_the_output_is_unspent(
    state: StateModel,
    name: Seq<char>,
    outpoint: Seq<char>,
    spending_txid: Seq<char>,
)
    ensures
        spend_step(state, name, outpoint, spending_txid) == Ok::<MatchStep, RefusalModel>(
            MatchStep::New,
        ) <==> {
            let record = state.inner.records[name];
            &&& state.inner.records.contains_key(name)
            &&& record.status != DescriptorStatus::Deleting
            &&& record.utxos.contains_key(outpoint)
            &&& record.utxos[outpoint].spent_by is None
        },
        spend_step(state, name, outpoint, spending_txid) matches Ok(MatchStep::Known { pending })
            ==> {
            let record = state.inner.records[name];
            &&& record.utxos.contains_key(outpoint)
            &&& record.utxos[outpoint].spent_by == Some(spending_txid)
            &&& pending == record.pending_movements.contains_key(
                "spend:"@ + outpoint + ":"@ + spending_txid,
            )
        },
{
}

/// A spend that is recorded marks its output with the transaction and the
/// height, and its movement waits with the amount of the output. Nothing else
/// that the record has found or waits for changes.
pub proof fn recorded_spend_is_kept(
    record: RecordModel,
    outpoint: Seq<char>,
    spending_txid: Seq<char>,
    blockheight: u32,
    timestamp: u64,
    other: Seq<char>,
)
    requires
        record.utxos.contains_key(outpoint),
    ensures
        ({
            let after = output_spent(record, outpoint, spending_txid, blockheight, timestamp);
            let before = record.utxos[outpoint];
            let spent = after.utxos[outpoint];
            let id = "spend:"@ + outpoint + ":"@ + spending_txid;
            let movement = after.pending_movements[id];
            &&& after.utxos.dom() == record.utxos.dom()
            &&& spent.spent_by == Some(spending_txid)
            &&& spent.spent_height == Some(blockheight)
            &&& spent.amount_msat == before.amount_msat
            &&& spent.outpoint == before.outpoint
            &&& spent.branch == before.branch
            &&& spent.derivation_index == before.derivation_index
            &&& spent.deposit_height == before.deposit_height
            &&& spent.annotation == before.annotation
            &&& after.pending_movements.contains_key(id)
            &&& movement.id == id
            &&& movement.kind == MovementKind::Spend
            &&& movement.outpoint == outpoint
            &&& movement.amount_msat == before.amount_msat
            &&& movement.blockheight == blockheight
            &&& movement.timestamp == timestamp
            &&& movement.spending_txid == Some(spending_txid)
            &&& other != outpoint ==> after.utxos[other] == record.utxos[other]
            &&& other != id ==> after.pending_movements.contains_key(other)
                == record.pending_movements.contains_key(other) && after.pending_movements[other]
                == record.pending_movements[other]
            &&& after.config == record.config
            &&& after.status == record.status
            &&& after.external_outpoints == record.external_outpoints
            &&& after.range_ends == record.range_ends
            &&& after.next_indexes == record.next_indexes
            &&& after.last_used_indexes == record.last_used_indexes
            &&& after.generation == record.generation
        }),
{
    let after = output_spent(record, outpoint, spending_txid, blockheight, timestamp);
    assert(after.utxos.dom() =~= record.utxos.dom());
}

/// After a live deposit the node is asked to watch each script by which the
/// descriptor grew and to scan for each of them, and to watch the output from its
/// own block on.
pub proof fn deposit_is_watched(
    record: RecordModel,
    added: Seq<ScriptModel>,
    outpoint: Seq<char>,
    blockheight: u32,
    k: int,
)
    ensures
        ({
            let calls = deposit_calls(record, added, outpoint, blockheight);
            let last = calls.last();
            let owner = outpoint_owner_text(record.config.name, outpoint);
            &&& calls.len() == (if added.len() == 0 {
                1int
            } else {
                3
            })
            &&& last.method == "addoutpointwatch"@
            &&& last.params.text_field("owner"@) == Some(owner)
            &&& last.params.text_field("outpoint"@) == Some(outpoint)
            &&& last.params.number_field("start_block"@) == Some(blockheight as u64)
            &&& last.params.field("rescan"@) == Some(JsonModel::Bool(true))
            &&& 0 <= k < added.len() ==> {
                let watches = calls[0].params.list_field("watches"@)->Some_0;
                let owners = calls[1].params.list_field("owners"@)->Some_0;
                let name = script_owner_text(record.config.name, added[k].branch, added[k].index);
                &&& calls[0].method == "addscriptpubkeywatches"@
                &&& calls[0].params.list_field("watches"@) is Some
                &&& calls[0].params.number_field("start_block"@) == Some(
                    record.config.birthheight as u64,
                )
                &&& watches.len() == added.len()
                &&& watches[k].text_field("owner"@) == Some(name)
                &&& watches[k].text_field("scriptpubkey"@) == Some(added[k].scriptpubkey)
                &&& calls[1].method == "rescanwatchset"@
                &&& calls[1].params.list_field("owners"@) is Some
                &&& calls[1].params.number_field("start_block"@) == Some(
                    record.config.birthheight as u64,
                )
                &&& owners.len() == added.len()
                &&& owners[k] == JsonModel::Text(name)
            }
        }),
{
    let pairs = scan_pairs(record.config.name, added);
    let owners = pairs.map_values(|pair: (Seq<char>, Seq<char>)| pair.0);
    outpoint_watch_is_asked(
        outpoint_owner_text(record.config.name, outpoint),
        outpoint,
        blockheight,
        true,
    );
    let calls = deposit_calls(record, added, outpoint, blockheight);
    if added.len() > 0 {
        script_watches_are_asked(pairs, record.config.birthheight, k);
        owners_rescan_is_asked(owners, record.config.birthheight, k);
        assert(calls[0] == script_watches_call(pairs, record.config.birthheight)->Some_0);
        assert(calls[1] == owners_rescan_call(owners, record.config.birthheight)->Some_0);
    }
}

/// The payload of a notification is what stands under its topic, and the whole
/// notification where nothing does.
pub proof fn notification_is_unwrapped(topic: Seq<char>, value: JsonModel, payload: JsonModel)
    ensures
        value.field(topic) == Some(payload) ==> payload_of(topic, value) == payload,
        value.field(topic) is None ==> payload_of(topic, value) == value,
{
}

/// After a deposit that a scan of history has found nothing is watched yet, and
/// after a live one all that it calls for.
pub proof fn watches_wait_for_the_end_of_a_scan(
    record: RecordModel,
    added: Seq<ScriptModel>,
    outpoint: Seq<char>,
    event: MatchModel,
)
    ensures
        event.historical_scan ==> calls_after_deposit(record, added, outpoint, event).len() == 0,
        !event.historical_scan ==> calls_after_deposit(record, added, outpoint, event)
            == deposit_calls(record, added, outpoint, event.blockheight),
{
}

/// A live deposit leaves its descriptor active, and one that a scan has found
/// leaves it as it was. Nothing else changes, and the record is stored where its
/// status did.
pub proof fn live_deposit_leaves_the_descriptor_active(record: RecordModel, historical_scan: bool)
    ensures
        ({
            let after = settled(record, historical_scan);
            &&& !historical_scan && record.status != DescriptorStatus::Deleting ==> after.status
                == DescriptorStatus::Active
            &&& historical_scan ==> after == record
            &&& after == (RecordModel { status: after.status, ..record })
            &&& settles(record, historical_scan) <==> after.status != record.status
        }),
{
}

/// A spend is recorded for the output that it spends, and only for one that the
/// descriptor has.
pub proof fn spend_is_recorded_for_its_output(
    state: StateModel,
    name: Seq<char>,
    outpoint: Seq<char>,
    spending_txid: Seq<char>,
    blockheight: u32,
    timestamp: u64,
)
    requires
        state.inner.records.contains_key(name),
        state.inner.records[name].status != DescriptorStatus::Deleting,
    ensures
        ({
            let before = state.inner.records[name];
            let r = spend_recorded(state, name, outpoint, spending_txid, blockheight, timestamp);
            &&& r is Ok <==> before.utxos.contains_key(outpoint)
            &&& r matches Ok(after) ==> {
                &&& after.utxos.contains_key(outpoint)
                &&& after.utxos[outpoint].spent_by == Some(spending_txid)
                &&& after.utxos[outpoint].spent_height == Some(blockheight)
                &&& after.utxos[outpoint].amount_msat == before.utxos[outpoint].amount_msat
                &&& after.config == before.config
            }
        }),
{
}

/// The owner of a watch names the descriptor that it was written for.
pub proof fn owner_names_its_descriptor(
    name: Seq<char>,
    branch: u32,
    index: u32,
    outpoint: Seq<char>,
)
    ensures
        owner_name(OwnerModel::Script { name, branch, index }) == name,
        owner_name(OwnerModel::Outpoint { name, outpoint }) == name,
{
}

/// The annotation of a place is that of the address that was given out for it.
pub proof fn annotation_is_of_the_place(
    book: Seq<crate::model::IssuedModel>,
    address: crate::model::IssuedModel,
    annotation: Option<Seq<char>>,
)
    requires
        crate::state::in_place_order(book),
        book.contains(address),
        is_annotation_at(book, address.branch, address.index, annotation),
    ensures
        annotation == address.annotation,
{
    if annotation is Some {
        let x = choose|x: crate::model::IssuedModel| #[trigger]
            book.contains(x) && x.branch == address.branch && x.index == address.index
                && x.annotation == annotation;
        let i = choose|i: int| 0 <= i < book.len() && book[i] == x;
        let j = choose|j: int| 0 <= j < book.len() && book[j] == address;
        if i < j {
            assert(crate::state::place_before(book[i], book[j]));
        } else if j < i {
            assert(crate::state::place_before(book[j], book[i]));
        }
    }
}

/// A deposit is refused for the first thing that is wrong with it: an index that is not
/// watched, a script that is not that of its place, or an amount that has changed.
pub proof fn refused_deposit_says_why(
    state: StateModel,
    name: Seq<char>,
    branch: u32,
    index: u32,
    event: MatchModel,
    output: ObservedModel,
)
    ensures
        ({
            let r = deposit_step(state, name, branch, index, event, output);
            let record = state.inner.records[name];
            let taken = state.inner.records.contains_key(name) && record.status
                != DescriptorStatus::Deleting && event.blockheight >= record.config.birthheight;
            let end = if event.historical_scan {
                100_000int
            } else {
                record.range_end as int
            };
            let set = config_set(record.config, state.network)->Ok_0;
            let placed = taken && index < end && config_set(record.config, state.network) is Ok
                && branch < set.branches && (set.ranged || index == 0) && script_at(
                record.config.descriptor,
                branch,
                index,
            ) is Ok;
            let script = hex_text(script_at(record.config.descriptor, branch, index)->Ok_0);
            &&& !state.inner.records.contains_key(name) ==> refuses(
                r,
                TrackerError::UnknownDescriptor,
                name,
            )
            &&& taken && index >= end ==> refuses(r, TrackerError::IndexUnwatched, name)
            &&& placed && output.scriptpubkey != script ==> refuses(
                r,
                TrackerError::ScriptMismatch,
                name,
            )
            &&& placed && output.scriptpubkey == script && record.utxos.contains_key(
                output.outpoint,
            ) && record.utxos[output.outpoint].amount_msat != output.amount_msat ==> refuses(
                r,
                TrackerError::AmountChanged,
                name,
            )
        }),
{
    if state.inner.records.contains_key(name) {
        accepted_configuration_is_sound(state.inner.records[name].config, state.network);
    }
}

/// A spend is refused of what is not known, of an output that the descriptor does not
/// have, and of one that another transaction has spent.
pub proof fn refused_spend_says_why(
    state: StateModel,
    name: Seq<char>,
    outpoint: Seq<char>,
    spending_txid: Seq<char>,
)
    ensures
        ({
            let r = spend_step(state, name, outpoint, spending_txid);
            let record = state.inner.records[name];
            let taken = state.inner.records.contains_key(name) && record.status
                != DescriptorStatus::Deleting;
            &&& !state.inner.records.contains_key(name) ==> refuses(
                r,
                TrackerError::UnknownDescriptor,
                name,
            )
            &&& taken && !record.utxos.contains_key(outpoint) ==> refuses(
                r,
                TrackerError::UnknownOutpoint,
                outpoint,
            )
            &&& taken && record.utxos.contains_key(outpoint) && record.utxos[outpoint].spent_by
                is Some && record.utxos[outpoint].spent_by->Some_0 != spending_txid ==> refuses(
                r,
                TrackerError::DifferentSpend,
                name,
            )
            &&& state.inner.records.contains_key(name) && !taken ==> r == Ok::<
                MatchStep,
                RefusalModel,
            >(MatchStep::Ignored)
        }),
{
}

/// A match that cannot be read is refused for what it lacks.
pub proof fn unreadable_match_says_why(event: MatchModel, outpoint: Seq<char>, tx: TransactionModel)
    ensures
        event.watch_type != "scriptpubkey"@ ==> matched_output(event) is Err
            && matched_output(event)->Err_0.error == TrackerError::NotScriptMatch,
        event.watch_type == "scriptpubkey"@ && event.tx is None ==> matched_output(event) is Err
            && matched_output(event)->Err_0.error == TrackerError::ScriptTransactionMissing,
        event.watch_type == "scriptpubkey"@ && event.tx is Some && event.index is None
            ==> matched_output(event) is Err && matched_output(event)->Err_0.error
            == TrackerError::ScriptIndexMissing,
        event.watch_type != "outpoint"@ ==> matched_spender(event, outpoint) is Err
            && matched_spender(event, outpoint)->Err_0.error == TrackerError::NotOutpointMatch,
        event.watch_type == "outpoint"@ && event.tx is None ==> matched_spender(event, outpoint)
            is Err && matched_spender(event, outpoint)->Err_0.error
            == TrackerError::OutpointTransactionMissing,
        event.watch_type == "outpoint"@ && event.tx is Some && event.index is None
            ==> matched_spender(event, outpoint) is Err && matched_spender(
            event,
            outpoint,
        )->Err_0.error == TrackerError::InputIndexMissing,
        event.tx is Some && event.index is Some && decoded_transaction(event.tx->Some_0) == Ok::<
            TransactionModel,
            Seq<char>,
        >(tx) ==> {
            let index = event.index->Some_0;
            &&& event.watch_type == "scriptpubkey"@ && index >= tx.outputs.len()
                ==> matched_output(event) is Err && matched_output(event)->Err_0.error
                == TrackerError::OutputOutside
            &&& event.watch_type == "outpoint"@ && index >= tx.inputs.len() ==> matched_spender(
                event,
                outpoint,
            ) is Err && matched_spender(event, outpoint)->Err_0.error == TrackerError::InputOutside
            &&& event.watch_type == "outpoint"@ && index < tx.inputs.len() && tx.inputs[
            index as int] != outpoint ==> matched_spender(event, outpoint) is Err
                && matched_spender(event, outpoint)->Err_0.error == TrackerError::InputMismatch
        },
{
}

} // verus!
