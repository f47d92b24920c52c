//! How a descriptor is registered, rescanned, updated, reconciled and removed.

use crate::descriptor::{
    accepted_descriptor_is_sound, has_script, hex_text, is_script_of, range_is_whole, range_result,
    script_at, DerivedScript, DescriptorSet, ScriptModel, SetModel,
};
use crate::error::{
    refusal_for, refusal_of, refusal_within, refuses, Refusal, RefusalModel, TrackerError,
};
use crate::frontier::{
    desired_ends, desired_range_ends, refresh_aggregate_indexes, refreshed, uniform_ends,
    uniform_range_ends, watched_end,
};
use crate::incidents::{mark_success, success_marked};
use crate::json::{named_field_at, no_fields, Fields, Json, JsonModel};
use crate::model::{
    confirmations_fault, lookahead_fault, script_owner, script_owner_text, validate_confirmations,
    validate_lookahead, ConfigModel, DescriptorConfig, DescriptorRecord, DescriptorStatus,
    MovementModel, PendingRescan, RecordModel, RegisterModel, RegisterRequest, RescanRequest,
    UpdateRequest, UtxoModel, MAX_LOOKAHEAD,
};
use crate::ordered::{models, sorted_keys, sorted_keys_of, Duplicate, TextMap};
use crate::scripts::{
    accepted_configuration_is_sound, config_set, descriptor_scripts, ensure_no_script_overlap,
    overlap_refusal, validate_config, watched_scripts, watched_scripts_are_whole,
};
use crate::state::{AppState, StateModel};
use crate::text::same_text;
use crate::views::{record_fields, record_view};
use std::collections::BTreeMap;
use vstd::prelude::*;
use vstd::string::*;

verus! {

/// What a new record, or its refusal, stands for.
pub open spec fn record_result(r: Result<DescriptorRecord, Refusal>) -> Result<
    RecordModel,
    RefusalModel,
> {
    match r {
        Ok(record) => Ok(record@),
        Err(e) => Err(e@),
    }
}

/// The record of a descriptor, which must be registered.
pub open spec fn known(state: StateModel, name: Seq<char>) -> Result<RecordModel, RefusalModel> {
    if state.inner.records.contains_key(name) {
        Ok(state.inner.records[name])
    } else {
        Err(refusal_of(TrackerError::NotRegistered, name))
    }
}

/// The record of a descriptor, which must be registered.
pub(crate) fn known_record<'a>(state: &'a AppState, name: &str) -> (r: Result<
    &'a DescriptorRecord,
    Refusal,
>)
    ensures
        (match r {
            Ok(record) => Ok(record@),
            Err(e) => Err(e@),
        }) == known(state@, name@),
{
    match state.record(name) {
        Some(record) => Ok(record),
        None => Err(Refusal::of(TrackerError::NotRegistered, name)),
    }
}

/// The watches of a scan: an owner and a script each.
pub open spec fn scan_pairs(name: Seq<char>, scripts: Seq<ScriptModel>) -> Seq<
    (Seq<char>, Seq<char>),
> {
    scripts.map_values(
        |script: ScriptModel|
            (script_owner_text(name, script.branch, script.index), script.scriptpubkey),
    )
}

/// The watches of scripts: an owner and a script each.
pub fn transient_watches(name: &str, scripts: &Vec<DerivedScript>) -> (r: Vec<(String, String)>)
    ensures
        models(r@) == scan_pairs(name@, models(scripts@)),
{
    let mut r: Vec<(String, String)> = Vec::new();
    let mut i: usize = 0;
    while i < scripts.len()
        invariant
            i <= scripts.len(),
            r.len() == i,
            forall|j: int|
                0 <= j < i ==> (#[trigger] r[j])@ == (
                    script_owner_text(name@, scripts[j].branch, scripts[j].index),
                    scripts[j].scriptpubkey@,
                ),
        decreases scripts.len() - i,
    {
        let script = &scripts[i];
        r.push((script_owner(name, script.branch, script.index), script.scriptpubkey.clone()));
        i = i + 1;
    }
    assert(models(r@) =~= scan_pairs(name@, models(scripts@)));
    r
}

/// The configuration that a registration asks for.
pub open spec fn requested_config(request: RegisterModel) -> ConfigModel {
    ConfigModel {
        name: request.name,
        descriptor: request.descriptor,
        birthheight: request.birthheight,
        lookahead: request.lookahead,
        confirmations: request.confirmations,
    }
}

/// The record of a descriptor that was not known before.
pub open spec fn new_record(config: ConfigModel, branches: nat) -> RecordModel {
    RecordModel {
        config,
        utxos: Map::empty(),
        pending_movements: Map::empty(),
        external_outpoints: Map::empty(),
        next_indexes: Map::empty(),
        range_ends: uniform_ends(branches as u32, config.lookahead),
        last_used_indexes: Map::empty(),
        range_end: config.lookahead,
        last_used_index: None,
        status: DescriptorStatus::Syncing,
        initial_scan_complete: false,
        pending_rescan: None,
        scan_operation_id: None,
        incident: None,
        last_success_at: None,
        generation: None,
    }
}

/// A registration that was interrupted can be taken up with the same
/// configuration.
pub open spec fn resumes_registration(existing: RecordModel, config: ConfigModel) -> bool {
    existing.status == DescriptorStatus::Syncing && !existing.initial_scan_complete
        && existing.pending_rescan is None && existing.config == config
}

/// The end of the range that the first scan of a descriptor examines.
pub open spec fn initial_scan_end(set: SetModel) -> u32 {
    if set.ranged {
        MAX_LOOKAHEAD
    } else {
        1
    }
}

/// The record of a registration, and the scripts that its scan examines.
pub open spec fn registration(state: StateModel, config: ConfigModel) -> Result<
    (RecordModel, Seq<ScriptModel>),
    RefusalModel,
> {
    match config_set(config, state.network) {
        Err(e) => Err(refusal_for(e, state.network)),
        Ok(set) => match range_result(set, 0, config.lookahead) {
            Err(e) => Err(refusal_for(e, state.network)),
            Ok(_) => match range_result(set, 0, initial_scan_end(set)) {
                Err(e) => Err(
                    refusal_within(
                        TrackerError::ScanRange,
                        config.name,
                        refusal_for(e, state.network),
                    ),
                ),
                Ok(scripts) => match overlap_refusal(
                    config.name,
                    scripts,
                    state.inner.records,
                    state.network,
                ) {
                    Some(refusal) => Err(refusal),
                    None => if state.inner.records.contains_key(config.name) {
                        let existing = state.inner.records[config.name];
                        if resumes_registration(existing, config) {
                            Ok((existing, scripts))
                        } else {
                            Err(refusal_of(TrackerError::AlreadyRegistered, config.name))
                        }
                    } else {
                        Ok((new_record(config, set.branches), scripts))
                    },
                },
            },
        },
    }
}

/// A registration that may go on: the record to store, the watches to scan
/// for, and the number of branches.
#[derive(Debug)]
pub struct Registration {
    pub record: DescriptorRecord,
    pub watches: Vec<(String, String)>,
    pub branches: usize,
}

/// Whether two configurations are the same.
fn same_config(a: &DescriptorConfig, b: &DescriptorConfig) -> (r: bool)
    ensures
        r == (a@ == b@),
{
    let r = same_text(a.name.as_str(), b.name.as_str()) && same_text(
        a.descriptor.as_str(),
        b.descriptor.as_str(),
    ) && a.birthheight == b.birthheight && a.lookahead == b.lookahead && a.confirmations
        == b.confirmations;
    proof {
        if r {
            assert(a@ =~= b@);
        }
    }
    r
}

/// What a registration comes to: its record, what its scan examines under which
/// owner, and the number of branches.
pub open spec fn registration_plan(state: StateModel, config: ConfigModel) -> Result<
    (RecordModel, Seq<(Seq<char>, Seq<char>)>, nat),
    RefusalModel,
> {
    match registration(state, config) {
        Ok((record, scripts)) => Ok(
            (
                record,
                scan_pairs(config.name, scripts),
                config_set(config, state.network)->Ok_0.branches,
            ),
        ),
        Err(refusal) => Err(refusal),
    }
}

/// Plans a registration. A descriptor that is registered can only be
/// registered again to resume an interrupted first scan.
pub fn register(state: &AppState, request: &RegisterRequest) -> (r: Result<Registration, Refusal>)
    ensures
        match (r, registration_plan(state@, requested_config(request@))) {
            (Ok(planned), Ok((record, pairs, branches))) => {
                &&& planned.record@ == record
                &&& models(planned.watches@) == pairs
                &&& planned.branches == branches
            },
            (Err(e), Err(refusal)) => e@ == refusal,
            _ => false,
        },
{
    let config = DescriptorConfig {
        name: request.name.clone(),
        descriptor: request.descriptor.clone(),
        birthheight: request.birthheight,
        lookahead: request.lookahead,
        confirmations: request.confirmations,
    };
    assert(config@ == requested_config(request@));
    let network = state.network.as_str();
    let descriptor = match validate_config(&config, network) {
        Err(e) => {
            return Err(e.about(network));
        },
        Ok(descriptor) => descriptor,
    };
    match descriptor.derive_range(0, config.lookahead) {
        Err(e) => {
            return Err(e.about(network));
        },
        Ok(_) => {},
    }
    let scan_end: u32 = if descriptor.is_ranged() {
        MAX_LOOKAHEAD
    } else {
        1
    };
    let scripts = match descriptor.derive_range(0, scan_end) {
        Err(e) => {
            return Err(
                e.about(network).within(TrackerError::ScanRange, config.name.as_str()),
            );
        },
        Ok(scripts) => scripts,
    };
    match ensure_no_script_overlap(
        config.name.as_str(),
        &scripts,
        state.records_snapshot(),
        network,
    ) {
        Err(e) => {
            return Err(e);
        },
        Ok(_) => {},
    }
    let watches = transient_watches(config.name.as_str(), &scripts);
    let branches = descriptor.branch_count();
    let record = match state.record(config.name.as_str()) {
        Some(existing) => {
            if existing.status == DescriptorStatus::Syncing && !existing.initial_scan_complete
                && existing.pending_rescan.is_none() && same_config(&existing.config, &config) {
                existing.duplicate()
            } else {
                return Err(Refusal::of(TrackerError::AlreadyRegistered, config.name.as_str()));
            }
        },
        None => {
            let lookahead = config.lookahead;
            DescriptorRecord {
                config,
                utxos: TextMap::new(),
                pending_movements: TextMap::new(),
                external_outpoints: TextMap::new(),
                next_indexes: empty_indexes(),
                range_ends: uniform_range_ends(branches as u32, lookahead),
                last_used_indexes: empty_indexes(),
                range_end: lookahead,
                last_used_index: None,
                status: DescriptorStatus::Syncing,
                initial_scan_complete: false,
                pending_rescan: None,
                scan_operation_id: None,
                incident: None,
                last_success_at: None,
                generation: None,
            }
        },
    };
    Ok(Registration { record, watches, branches })
}

/// No indexes.
fn empty_indexes() -> (r: BTreeMap<u32, u32>)
    ensures
        r@ == Map::<u32, u32>::empty(),
{
    BTreeMap::new()
}

/// A record with the scan that is running for it.
pub open spec fn scan_marked(record: RecordModel, operation_id: Seq<char>) -> RecordModel {
    RecordModel { scan_operation_id: Some(operation_id), ..record }
}

/// Marks a record with the scan that is running for it.
pub fn mark_scan(record: &mut DescriptorRecord, operation_id: &str)
    ensures
        final(record)@ == scan_marked(old(record)@, operation_id@),
{
    record.scan_operation_id = Some(operation_id.to_owned());
}

/// Whether the scan that runs for a record is the one of a name.
fn runs_scan(record: &DescriptorRecord, operation_id: &str) -> (r: bool)
    ensures
        r == (record@.scan_operation_id == Some(operation_id@)),
{
    match &record.scan_operation_id {
        Some(id) => same_text(id.as_str(), operation_id),
        None => false,
    }
}

/// A record whose first scan is complete, where the scan is still the one of the
/// registration.
pub open spec fn initial_scan_completed(record: RecordModel, operation_id: Seq<char>) -> Result<
    RecordModel,
    TrackerError,
> {
    if record.scan_operation_id == Some(operation_id) {
        Ok(RecordModel { initial_scan_complete: true, ..record })
    } else {
        Err(TrackerError::RegistrationChanged)
    }
}

/// That the first scan is complete was not noted before.
pub open spec fn completes_scan(record: RecordModel) -> bool {
    !record.initial_scan_complete
}

/// Notes that the first scan of a descriptor is complete. The scan must still
/// be the one of the registration. The record is to be stored where it changed.
pub fn complete_initial_scan(record: &mut DescriptorRecord, operation_id: &str) -> (r: Result<
    bool,
    TrackerError,
>)
    ensures
        match initial_scan_completed(old(record)@, operation_id@) {
            Ok(after) => r == Ok::<bool, TrackerError>(completes_scan(old(record)@))
                && final(record)@ == after,
            Err(e) => r == Err::<bool, TrackerError>(e) && final(record)@ == old(record)@,
        },
{
    if !runs_scan(record, operation_id) {
        return Err(TrackerError::RegistrationChanged);
    }
    let changed = !record.initial_scan_complete;
    record.initial_scan_complete = true;
    Ok(changed)
}

/// A record whose registration is complete.
pub open spec fn registered(record: RecordModel, now: u64) -> RecordModel {
    success_marked(
        RecordModel {
            status: DescriptorStatus::Active,
            scan_operation_id: None,
            ..record
        },
        "register"@,
        now,
    )
}

/// Activates a descriptor whose registration is complete.
pub fn finish_registration(record: &mut DescriptorRecord, now: u64)
    ensures
        final(record)@ == registered(old(record)@, now),
{
    record.status = DescriptorStatus::Active;
    record.scan_operation_id = None;
    mark_success(record, "register", now);
}

/// Whether a rescan asks for what an interrupted one had asked for.
pub fn rescan_resume_parameters_match(
    pending: &PendingRescan,
    persisted_lookahead: u32,
    requested_start: u32,
    requested_lookahead: u32,
) -> (r: bool)
    ensures
        r == (pending.start_block == requested_start && persisted_lookahead
            == requested_lookahead),
{
    pending.start_block == requested_start && persisted_lookahead == requested_lookahead
}

/// A record whose branches are watched as far as a lookahead asks.
pub open spec fn reframed(
    record: RecordModel,
    set: SetModel,
    lookahead: u32,
    confirmations: u32,
) -> Result<RecordModel, TrackerError> {
    let configured = RecordModel {
        config: ConfigModel { lookahead, confirmations, ..record.config },
        ..record
    };
    match desired_ends(configured, set.branches, lookahead, false) {
        Err(e) => Err(e),
        Ok(ends) => Ok(refreshed(RecordModel { range_ends: ends, ..configured })),
    }
}

/// A record whose branches are watched as far as a lookahead asks, where no
/// other descriptor watches any of its scripts.
pub open spec fn reframed_apart(
    state: StateModel,
    record: RecordModel,
    set: SetModel,
    lookahead: u32,
    confirmations: u32,
) -> Result<RecordModel, RefusalModel> {
    match reframed(record, set, lookahead, confirmations) {
        Err(e) => Err(refusal_of(e, state.network)),
        Ok(updated) => match watched_scripts(updated, set) {
            Err(e) => Err(refusal_for(e, state.network)),
            Ok(scripts) => match overlap_refusal(
                updated.config.name,
                scripts,
                state.inner.records,
                state.network,
            ) {
                Some(refusal) => Err(refusal),
                None => Ok(updated),
            },
        },
    }
}

/// Sets how far the branches of a record are watched.
fn reframe(
    state: &AppState,
    record: DescriptorRecord,
    descriptor: &DescriptorSet,
    lookahead: u32,
    confirmations: u32,
) -> (r: Result<DescriptorRecord, Refusal>)
    ensures
        record_result(r) == reframed_apart(
            state@,
            record@,
            descriptor@,
            lookahead,
            confirmations,
        ),
{
    let network = state.network.as_str();
    let mut updated = record;
    updated.config.lookahead = lookahead;
    updated.config.confirmations = confirmations;
    let count = descriptor.branch_count();
    match desired_range_ends(&updated, count as u32, lookahead, false) {
        Err(e) => {
            return Err(Refusal::of(e, network));
        },
        Ok(ends) => {
            updated.range_ends = ends;
        },
    }
    refresh_aggregate_indexes(&mut updated);
    let scripts = match descriptor_scripts(&updated, descriptor) {
        Err(e) => {
            return Err(e.about(network));
        },
        Ok(scripts) => scripts,
    };
    match ensure_no_script_overlap(
        updated.config.name.as_str(),
        &scripts,
        state.records_snapshot(),
        network,
    ) {
        Err(e) => Err(e),
        Ok(_) => Ok(updated),
    }
}

/// The block at which a rescan starts: the one asked for, else that of an
/// interrupted rescan, else the birth of the descriptor.
pub open spec fn rescan_start(record: RecordModel, start_block: Option<u32>) -> u32 {
    match (start_block, record.pending_rescan) {
        (Some(start), _) => start,
        (None, Some(pending)) => pending.start_block,
        (None, None) => record.config.birthheight,
    }
}

/// The record of a rescan that may go on.
pub open spec fn rescan_record(
    state: StateModel,
    name: Seq<char>,
    start_block: Option<u32>,
    lookahead: Option<u32>,
) -> Result<RecordModel, RefusalModel> {
    if lookahead is Some && lookahead_fault(lookahead->Some_0) is Some {
        Err(refusal_of(lookahead_fault(lookahead->Some_0)->Some_0, name))
    } else {
        match known(state, name) {
            Err(refusal) => Err(refusal),
            Ok(record) => if record.status == DescriptorStatus::Deleting {
                Err(refusal_of(TrackerError::BeingDeleted, name))
            } else if !record.initial_scan_complete {
                Err(refusal_of(TrackerError::InitialScanInterrupted, name))
            } else {
                match config_set(record.config, state.network) {
                    Err(e) => Err(refusal_for(e, state.network)),
                    Ok(set) => {
                        let wanted = match lookahead {
                            Some(lookahead) => lookahead,
                            None => record.config.lookahead,
                        };
                        let start = rescan_start(record, start_block);
                        if !set.ranged && wanted != 1 {
                            Err(refusal_of(TrackerError::StaticLookahead, name))
                        } else if start < record.config.birthheight {
                            Err(
                                refusal_of(
                                    TrackerError::StartBeforeBirth {
                                        birthheight: record.config.birthheight,
                                    },
                                    name,
                                ),
                            )
                        } else {
                            begun_rescan(state, record, set, start, wanted)
                        }
                    },
                }
            },
        }
    }
}

/// The record of a rescan that starts at a block with a lookahead. An
/// interrupted rescan can only be resumed with what it had asked for.
pub open spec fn begun_rescan(
    state: StateModel,
    record: RecordModel,
    set: SetModel,
    start: u32,
    lookahead: u32,
) -> Result<RecordModel, RefusalModel> {
    match record.pending_rescan {
        Some(pending) => if pending.start_block != start || record.config.lookahead != lookahead {
            Err(
                refusal_of(
                    TrackerError::RescanMismatch {
                        start_block: pending.start_block,
                        lookahead: record.config.lookahead,
                    },
                    record.config.name,
                ),
            )
        } else {
            Ok(RecordModel { status: DescriptorStatus::Syncing, ..record })
        },
        None => if record.status != DescriptorStatus::Active {
            Err(refusal_of(TrackerError::OtherInterrupted, record.config.name))
        } else {
            match reframed_apart(state, record, set, lookahead, record.config.confirmations) {
                Err(refusal) => Err(refusal),
                Ok(updated) => Ok(
                    RecordModel {
                        status: DescriptorStatus::Syncing,
                        pending_rescan: Some(PendingRescan { start_block: start }),
                        ..updated
                    },
                ),
            }
        },
    }
}

/// Begins a rescan that starts at a block with a lookahead.
fn begin_rescan(
    state: &AppState,
    record: DescriptorRecord,
    descriptor: &DescriptorSet,
    start: u32,
    lookahead: u32,
) -> (r: Result<DescriptorRecord, Refusal>)
    ensures
        record_result(r) == begun_rescan(state@, record@, descriptor@, start, lookahead),
{
    match record.pending_rescan {
        Some(pending) => {
            if !rescan_resume_parameters_match(
                &pending,
                record.config.lookahead,
                start,
                lookahead,
            ) {
                return Err(
                    Refusal::of(
                        TrackerError::RescanMismatch {
                            start_block: pending.start_block,
                            lookahead: record.config.lookahead,
                        },
                        record.config.name.as_str(),
                    ),
                );
            }
            let mut resumed = record;
            resumed.status = DescriptorStatus::Syncing;
            Ok(resumed)
        },
        None => {
            if record.status != DescriptorStatus::Active {
                return Err(
                    Refusal::of(TrackerError::OtherInterrupted, record.config.name.as_str()),
                );
            }
            let confirmations = record.config.confirmations;
            match reframe(state, record, descriptor, lookahead, confirmations) {
                Err(e) => Err(e),
                Ok(updated) => {
                    let mut updated = updated;
                    updated.status = DescriptorStatus::Syncing;
                    updated.pending_rescan = Some(PendingRescan { start_block: start });
                    Ok(updated)
                },
            }
        },
    }
}

/// A rescan that may go on: the record to store and the block to start at.
#[derive(Debug)]
pub struct Rescan {
    pub record: DescriptorRecord,
    pub start_block: u32,
}

/// What a rescan comes to: its record, and the block at which its scan starts.
pub open spec fn rescan_plan(
    state: StateModel,
    name: Seq<char>,
    start_block: Option<u32>,
    lookahead: Option<u32>,
) -> Result<(RecordModel, u32), RefusalModel> {
    match rescan_record(state, name, start_block, lookahead) {
        Ok(record) => Ok((record, rescan_start(state.inner.records[name], start_block))),
        Err(refusal) => Err(refusal),
    }
}

/// Plans a rescan.
pub fn rescan(state: &AppState, request: &RescanRequest) -> (r: Result<Rescan, Refusal>)
    ensures
        match (r, rescan_plan(state@, request.name@, request.start_block, request.lookahead)) {
            (Ok(planned), Ok((record, start))) => planned.record@ == record && planned.start_block
                == start,
            (Err(e), Err(refusal)) => e@ == refusal,
            _ => false,
        },
{
    let name = request.name.as_str();
    let network = state.network.as_str();
    match request.lookahead {
        Some(lookahead) => match validate_lookahead(lookahead) {
            Err(e) => {
                return Err(Refusal::of(e, name));
            },
            Ok(_) => {},
        },
        None => {},
    }
    let record = match known_record(state, name) {
        Err(e) => {
            return Err(e);
        },
        Ok(record) => record,
    };
    if record.status == DescriptorStatus::Deleting {
        return Err(Refusal::of(TrackerError::BeingDeleted, name));
    }
    if !record.initial_scan_complete {
        return Err(Refusal::of(TrackerError::InitialScanInterrupted, name));
    }
    let descriptor = match validate_config(&record.config, network) {
        Err(e) => {
            return Err(e.about(network));
        },
        Ok(descriptor) => descriptor,
    };
    let lookahead: u32 = match request.lookahead {
        Some(lookahead) => lookahead,
        None => record.config.lookahead,
    };
    if !descriptor.is_ranged() && lookahead != 1 {
        return Err(Refusal::of(TrackerError::StaticLookahead, name));
    }
    let start_block: u32 = match (request.start_block, record.pending_rescan) {
        (Some(start), _) => start,
        (None, Some(pending)) => pending.start_block,
        (None, None) => record.config.birthheight,
    };
    if start_block < record.config.birthheight {
        return Err(
            Refusal::of(
                TrackerError::StartBeforeBirth { birthheight: record.config.birthheight },
                name,
            ),
        );
    }
    match begin_rescan(state, record.duplicate(), &descriptor, start_block, lookahead) {
        Err(e) => Err(e),
        Ok(record) => Ok(Rescan { record, start_block }),
    }
}

/// The watches that a rescan of a record scans for.
pub open spec fn rescan_pairs(record: RecordModel, network: Seq<char>) -> Result<
    Seq<(Seq<char>, Seq<char>)>,
    RefusalModel,
> {
    match config_set(record.config, network) {
        Err(e) => Err(refusal_for(e, network)),
        Ok(set) => match watched_scripts(record, set) {
            Err(e) => Err(
                refusal_within(
                    TrackerError::RescanRange,
                    record.config.name,
                    refusal_for(e, network),
                ),
            ),
            Ok(scripts) => Ok(scan_pairs(record.config.name, scripts)),
        },
    }
}

/// The watches that a rescan of a record scans for.
pub fn rescan_watches(record: &DescriptorRecord, network: &str) -> (r: Result<
    Vec<(String, String)>,
    Refusal,
>)
    ensures
        (match r {
            Ok(watches) => Ok(models(watches@)),
            Err(e) => Err(e@),
        }) == rescan_pairs(record@, network@),
{
    match validate_config(&record.config, network) {
        Err(e) => Err(e.about(network)),
        Ok(descriptor) => match descriptor_scripts(record, &descriptor) {
            Err(e) => Err(
                e.about(network).within(TrackerError::RescanRange, record.config.name.as_str()),
            ),
            Ok(scripts) => Ok(transient_watches(record.config.name.as_str(), &scripts)),
        },
    }
}

/// Whether a rescan may be finished: the record must still wait for it.
pub open spec fn rescan_fault(
    record: RecordModel,
    start_block: u32,
    operation_id: Seq<char>,
) -> Option<TrackerError> {
    if record.pending_rescan != Some(PendingRescan { start_block }) {
        Some(TrackerError::RescanChanged)
    } else if record.scan_operation_id != Some(operation_id) {
        Some(TrackerError::RescanIdentityChanged)
    } else {
        None
    }
}

/// Refuses a record that no longer waits for a rescan.
pub fn check_rescan(record: &DescriptorRecord, start_block: u32, operation_id: &str) -> (r: Result<
    (),
    TrackerError,
>)
    ensures
        match r {
            Ok(_) => rescan_fault(record@, start_block, operation_id@) is None,
            Err(e) => rescan_fault(record@, start_block, operation_id@) == Some(e),
        },
{
    let waits = match record.pending_rescan {
        Some(pending) => pending.start_block == start_block,
        None => false,
    };
    if !waits {
        return Err(TrackerError::RescanChanged);
    }
    if !runs_scan(record, operation_id) {
        return Err(TrackerError::RescanIdentityChanged);
    }
    Ok(())
}

/// A record whose rescan is complete.
pub open spec fn rescanned(record: RecordModel, now: u64) -> RecordModel {
    success_marked(
        RecordModel {
            pending_rescan: None,
            scan_operation_id: None,
            status: DescriptorStatus::Active,
            ..record
        },
        "rescan"@,
        now,
    )
}

/// Activates a descriptor whose rescan is complete.
pub fn finish_rescan(record: &mut DescriptorRecord, now: u64)
    ensures
        final(record)@ == rescanned(old(record)@, now),
{
    record.pending_rescan = None;
    record.scan_operation_id = None;
    record.status = DescriptorStatus::Active;
    mark_success(record, "rescan", now);
}

/// What an update comes to.
#[derive(Clone, Copy, Debug, PartialEq, Eq, Structural)]
pub enum UpdateStep {
    /// The record is already as asked.
    Unchanged,
    /// An interrupted update goes on.
    Resumed,
    /// The record changes.
    Changed,
}

/// What an update comes to, with the record that it leaves.
pub open spec fn update_record(
    state: StateModel,
    name: Seq<char>,
    lookahead: Option<u32>,
    confirmations: Option<u32>,
) -> Result<(UpdateStep, RecordModel), RefusalModel> {
    if lookahead is None && confirmations is None {
        Err(refusal_of(TrackerError::UpdateEmpty, name))
    } else if lookahead is Some && lookahead_fault(lookahead->Some_0) is Some {
        Err(refusal_of(lookahead_fault(lookahead->Some_0)->Some_0, name))
    } else if confirmations is Some && confirmations_fault(confirmations->Some_0) is Some {
        Err(refusal_of(confirmations_fault(confirmations->Some_0)->Some_0, name))
    } else if state.active_scans.contains_key(name) {
        Err(refusal_of(TrackerError::ScanActive, name))
    } else {
        match known(state, name) {
            Err(refusal) => Err(refusal),
            Ok(record) => if record.status == DescriptorStatus::Deleting {
                Err(refusal_of(TrackerError::BeingDeleted, name))
            } else {
                match config_set(record.config, state.network) {
                    Err(e) => Err(refusal_for(e, state.network)),
                    Ok(set) => {
                        let gap = match lookahead {
                            Some(lookahead) => lookahead,
                            None => record.config.lookahead,
                        };
                        let depth = match confirmations {
                            Some(confirmations) => confirmations,
                            None => record.config.confirmations,
                        };
                        if !set.ranged && gap != 1 {
                            Err(refusal_of(TrackerError::StaticLookahead, name))
                        } else {
                            changed_record(state, name, record, set, gap, depth)
                        }
                    },
                }
            },
        }
    }
}

/// What an update to a lookahead and a depth comes to. An interrupted update
/// can only be resumed with what it had asked for.
pub open spec fn changed_record(
    state: StateModel,
    name: Seq<char>,
    record: RecordModel,
    set: SetModel,
    lookahead: u32,
    confirmations: u32,
) -> Result<(UpdateStep, RecordModel), RefusalModel> {
    let same = lookahead == record.config.lookahead && confirmations
        == record.config.confirmations;
    if record.status == DescriptorStatus::Syncing {
        if record.pending_rescan is Some {
            Err(refusal_of(TrackerError::RescanFirst, name))
        } else if !record.initial_scan_complete {
            Err(refusal_of(TrackerError::InitialScanInterrupted, name))
        } else if !same {
            Err(
                refusal_of(
                    TrackerError::UpdateMismatch {
                        lookahead: record.config.lookahead,
                        confirmations: record.config.confirmations,
                    },
                    name,
                ),
            )
        } else {
            Ok((UpdateStep::Resumed, record))
        }
    } else if same {
        Ok((UpdateStep::Unchanged, record))
    } else {
        match reframed_apart(state, record, set, lookahead, confirmations) {
            Err(refusal) => Err(refusal),
            Ok(updated) => Ok(
                (
                    UpdateStep::Changed,
                    RecordModel { status: DescriptorStatus::Syncing, ..updated },
                ),
            ),
        }
    }
}

/// An update that may go on: what it comes to, and the record that it leaves.
#[derive(Debug)]
pub struct Update {
    pub step: UpdateStep,
    pub record: DescriptorRecord,
}

/// Plans an update.
pub fn update(state: &AppState, request: &UpdateRequest) -> (r: Result<Update, Refusal>)
    ensures
        match (
            r,
            update_record(state@, request.name@, request.lookahead, request.confirmations),
        ) {
            (Ok(planned), Ok((step, record))) => planned.step == step && planned.record@ == record,
            (Err(e), Err(refusal)) => e@ == refusal,
            _ => false,
        },
{
    let name = request.name.as_str();
    let network = state.network.as_str();
    if request.lookahead.is_none() && request.confirmations.is_none() {
        return Err(Refusal::of(TrackerError::UpdateEmpty, name));
    }
    match request.lookahead {
        Some(lookahead) => match validate_lookahead(lookahead) {
            Err(e) => {
                return Err(Refusal::of(e, name));
            },
            Ok(_) => {},
        },
        None => {},
    }
    match request.confirmations {
        Some(confirmations) => match validate_confirmations(confirmations) {
            Err(e) => {
                return Err(Refusal::of(e, name));
            },
            Ok(_) => {},
        },
        None => {},
    }
    match state.ensure_no_active_scan(name) {
        Err(e) => {
            return Err(e);
        },
        Ok(_) => {},
    }
    let record = match known_record(state, name) {
        Err(e) => {
            return Err(e);
        },
        Ok(record) => record,
    };
    if record.status == DescriptorStatus::Deleting {
        return Err(Refusal::of(TrackerError::BeingDeleted, name));
    }
    let descriptor = match validate_config(&record.config, network) {
        Err(e) => {
            return Err(e.about(network));
        },
        Ok(descriptor) => descriptor,
    };
    let lookahead: u32 = match request.lookahead {
        Some(lookahead) => lookahead,
        None => record.config.lookahead,
    };
    let confirmations: u32 = match request.confirmations {
        Some(confirmations) => confirmations,
        None => record.config.confirmations,
    };
    if !descriptor.is_ranged() && lookahead != 1 {
        return Err(Refusal::of(TrackerError::StaticLookahead, name));
    }
    let same = lookahead == record.config.lookahead && confirmations
        == record.config.confirmations;
    if record.status == DescriptorStatus::Syncing {
        if record.pending_rescan.is_some() {
            return Err(Refusal::of(TrackerError::RescanFirst, name));
        }
        if !record.initial_scan_complete {
            return Err(Refusal::of(TrackerError::InitialScanInterrupted, name));
        }
        if !same {
            return Err(
                Refusal::of(
                    TrackerError::UpdateMismatch {
                        lookahead: record.config.lookahead,
                        confirmations: record.config.confirmations,
                    },
                    name,
                ),
            );
        }
        return Ok(Update { step: UpdateStep::Resumed, record: record.duplicate() });
    }
    if same {
        return Ok(Update { step: UpdateStep::Unchanged, record: record.duplicate() });
    }
    match reframe(state, record.duplicate(), &descriptor, lookahead, confirmations) {
        Err(e) => Err(e),
        Ok(updated) => {
            let mut updated = updated;
            updated.status = DescriptorStatus::Syncing;
            Ok(Update { step: UpdateStep::Changed, record: updated })
        },
    }
}

/// A record that is active after an operation.
pub open spec fn activated(record: RecordModel, operation: Seq<char>, now: u64) -> RecordModel {
    success_marked(
        RecordModel { status: DescriptorStatus::Active, ..record },
        operation,
        now,
    )
}

/// Activates a descriptor after an operation.
pub fn activate(record: &mut DescriptorRecord, operation: &str, now: u64)
    ensures
        final(record)@ == activated(old(record)@, operation@, now),
{
    record.status = DescriptorStatus::Active;
    mark_success(record, operation, now);
}

/// The removal of a descriptor that may go on: the record, and whether it is
/// to be stored first.
#[derive(Debug)]
pub struct Removal {
    pub record: DescriptorRecord,
    pub store: bool,
}

/// The record of a removal that may go on, and whether it is to be stored first.
pub open spec fn removal(state: StateModel, name: Seq<char>) -> Result<
    (RecordModel, bool),
    RefusalModel,
> {
    if state.active_scans.contains_key(name) {
        Err(refusal_of(TrackerError::ScanActive, name))
    } else {
        match known(state, name) {
            Err(refusal) => Err(refusal),
            Ok(record) => Ok(
                (
                    RecordModel { status: DescriptorStatus::Deleting, ..record },
                    record.status != DescriptorStatus::Deleting,
                ),
            ),
        }
    }
}

/// Plans the removal of a descriptor.
pub fn unregister(state: &AppState, name: &str) -> (r: Result<Removal, Refusal>)
    ensures
        match (r, removal(state@, name@)) {
            (Ok(planned), Ok((record, store))) => planned.record@ == record && planned.store
                == store,
            (Err(e), Err(refusal)) => e@ == refusal,
            _ => false,
        },
{
    match state.ensure_no_active_scan(name) {
        Err(e) => {
            return Err(e);
        },
        Ok(_) => {},
    }
    match known_record(state, name) {
        Err(e) => Err(e),
        Ok(record) => {
            let store = record.status != DescriptorStatus::Deleting;
            let mut record = record.duplicate();
            record.status = DescriptorStatus::Deleting;
            Ok(Removal { record, store })
        },
    }
}

/// Whether a descriptor can be reconciled, and whether that ends its removal.
pub open spec fn reconcilable(state: StateModel, name: Seq<char>) -> Result<
    (bool, RecordModel),
    RefusalModel,
> {
    if state.active_scans.contains_key(name) {
        Err(refusal_of(TrackerError::ScanActive, name))
    } else {
        match known(state, name) {
            Err(refusal) => Err(refusal),
            Ok(record) => if record.status == DescriptorStatus::Deleting {
                Ok((true, record))
            } else if !record.initial_scan_complete {
                Err(refusal_of(TrackerError::InitialScanInterrupted, name))
            } else if record.pending_rescan is Some {
                Err(refusal_of(TrackerError::RescanInterrupted, name))
            } else {
                Ok((false, record))
            },
        }
    }
}

/// A reconciliation that may go on: the record, and whether it is removed.
#[derive(Debug)]
pub struct Reconciliation {
    pub record: DescriptorRecord,
    pub removes: bool,
}

/// Plans the reconciliation of a descriptor.
pub fn reconcile_descriptor(state: &AppState, name: &str) -> (r: Result<Reconciliation, Refusal>)
    ensures
        match (r, reconcilable(state@, name@)) {
            (Ok(planned), Ok((removes, record))) => planned.removes == removes && planned.record@
                == record,
            (Err(e), Err(refusal)) => e@ == refusal,
            _ => false,
        },
{
    match state.ensure_no_active_scan(name) {
        Err(e) => {
            return Err(e);
        },
        Ok(_) => {},
    }
    let record = match known_record(state, name) {
        Err(e) => {
            return Err(e);
        },
        Ok(record) => record,
    };
    let removes = record.status == DescriptorStatus::Deleting;
    if !removes {
        if !record.initial_scan_complete {
            return Err(Refusal::of(TrackerError::InitialScanInterrupted, name));
        }
        if record.pending_rescan.is_some() {
            return Err(Refusal::of(TrackerError::RescanInterrupted, name));
        }
    }
    Ok(Reconciliation { record: record.duplicate(), removes })
}

/// A record that is reconciled.
pub open spec fn reconciled(record: RecordModel, now: u64) -> RecordModel {
    success_marked(
        RecordModel {
            status: DescriptorStatus::Active,
            scan_operation_id: None,
            ..record
        },
        "startup_reconciliation"@,
        now,
    )
}

/// Activates a descriptor that is reconciled.
pub fn finish_reconciliation(record: &mut DescriptorRecord, now: u64)
    ensures
        final(record)@ == reconciled(old(record)@, now),
{
    record.status = DescriptorStatus::Active;
    record.scan_operation_id = None;
    mark_success(record, "startup_reconciliation", now);
}

/// The answer to the removal of a descriptor.
pub open spec fn removal_shown(name: Seq<char>) -> JsonModel {
    JsonModel::Object(
        no_fields()
            .push(("name"@, JsonModel::Text(name)))
            .push(("removed"@, JsonModel::Bool(true))),
    )
}

/// The answer to the removal of a descriptor.
pub fn removal_view(name: &str) -> (r: Json)
    ensures
        r@ == removal_shown(name@),
{
    let mut fields = Fields::new();
    fields.put_text("name", name);
    fields.put("removed", Json::Bool(true));
    fields.done()
}

/// How a record is shown on a network.
pub open spec fn network_view(record: RecordModel, network: Seq<char>) -> Result<
    JsonModel,
    RefusalModel,
> {
    match config_set(record.config, network) {
        Err(e) => Err(refusal_for(e, network)),
        Ok(set) => Ok(JsonModel::Object(record_fields(record, set.branches))),
    }
}

/// What a shown value, or its refusal, stands for.
pub open spec fn json_result(r: Result<Json, Refusal>) -> Result<JsonModel, RefusalModel> {
    match r {
        Ok(json) => Ok(json@),
        Err(e) => Err(e@),
    }
}

/// Shows a record on a network.
pub fn show_record(record: &DescriptorRecord, network: &str) -> (r: Result<Json, Refusal>)
    ensures
        json_result(r) == network_view(record@, network@),
{
    match validate_config(&record.config, network) {
        Err(e) => Err(e.about(network)),
        Ok(descriptor) => Ok(record_view(record, descriptor.branch_count())),
    }
}

/// How a descriptor is shown.
pub open spec fn inspected(state: StateModel, name: Seq<char>) -> Result<JsonModel, RefusalModel> {
    match known(state, name) {
        Err(refusal) => Err(refusal),
        Ok(record) => network_view(record, state.network),
    }
}

/// Shows a descriptor.
pub fn inspect(state: &AppState, name: &str) -> (r: Result<Json, Refusal>)
    ensures
        json_result(r) == inspected(state@, name@),
{
    match known_record(state, name) {
        Err(e) => Err(e),
        Ok(record) => show_record(record, state.network.as_str()),
    }
}

/// How the records under the first keys of a row are shown.
pub open spec fn listed_views(
    records: Map<Seq<char>, RecordModel>,
    keys: Seq<Seq<char>>,
    count: nat,
    network: Seq<char>,
) -> Result<Seq<JsonModel>, RefusalModel>
    decreases count,
{
    if count == 0 {
        Ok(Seq::empty())
    } else {
        match listed_views(records, keys, (count - 1) as nat, network) {
            Err(refusal) => Err(refusal),
            Ok(views) => match network_view(records[keys[count - 1]], network) {
                Err(refusal) => Err(refusal),
                Ok(view) => Ok(views.push(view)),
            },
        }
    }
}

/// What was refused for the first keys is refused for more of them.
proof fn refused_view_stays(
    records: Map<Seq<char>, RecordModel>,
    keys: Seq<Seq<char>>,
    count: nat,
    more: nat,
    network: Seq<char>,
)
    requires
        count <= more,
        listed_views(records, keys, count, network) is Err,
    ensures
        listed_views(records, keys, more, network) == listed_views(records, keys, count, network),
    decreases more,
{
    if count < more {
        refused_view_stays(records, keys, count, (more - 1) as nat, network);
    }
}

/// How all descriptors are shown, in the order of their names.
pub open spec fn all_views(state: StateModel) -> Result<JsonModel, RefusalModel> {
    let keys = sorted_keys(state.inner.records.dom());
    match listed_views(state.inner.records, keys, keys.len(), state.network) {
        Err(refusal) => Err(refusal),
        Ok(views) => Ok(
            JsonModel::Object(no_fields().push(("descriptors"@, JsonModel::List(views)))),
        ),
    }
}

/// Shows all descriptors, in the order of their names.
pub fn list(state: &AppState) -> (r: Result<Json, Refusal>)
    ensures
        json_result(r) == all_views(state@),
{
    let records = state.records_snapshot();
    let network = state.network.as_str();
    let ghost keys = sorted_keys(records@.dom());
    let n = records.len();
    let mut views: Vec<Json> = Vec::new();
    let mut i: usize = 0;
    assert(models(views@) =~= Seq::<JsonModel>::empty());
    while i < n
        invariant
            i <= n,
            n == keys.len(),
            n == records@.dom().len(),
            keys == sorted_keys(records@.dom()),
            records@ == state@.inner.records,
            network@ == state@.network,
            Ok::<Seq<JsonModel>, RefusalModel>(models(views@)) == listed_views(
                records@,
                keys,
                i as nat,
                network@,
            ),
        decreases n - i,
    {
        let (_, record) = records.at(i);
        match show_record(record, network) {
            Err(e) => {
                proof {
                    refused_view_stays(records@, keys, (i + 1) as nat, n as nat, network@);
                }
                return Err(e);
            },
            Ok(view) => {
                let ghost before = models(views@);
                views.push(view);
                assert(models(views@) =~= before.push(view@));
            },
        }
        i = i + 1;
    }
    let mut fields = Fields::new();
    fields.put("descriptors", Json::of_list(views));
    Ok(fields.done())
}

/// A change of the lookahead or of the depth keeps the outputs, the pending
/// movements, the cursors and the descriptor itself.
pub proof fn update_keeps_what_was_found(
    state: StateModel,
    name: Seq<char>,
    lookahead: Option<u32>,
    confirmations: Option<u32>,
)
    requires
        update_record(state, name, lookahead, confirmations) is Ok,
    ensures
        ({
            let before = state.inner.records[name];
            let after = update_record(state, name, lookahead, confirmations)->Ok_0.1;
            &&& after.utxos == before.utxos
            &&& after.pending_movements == before.pending_movements
            &&& after.external_outpoints == before.external_outpoints
            &&& after.next_indexes == before.next_indexes
            &&& after.last_used_indexes == before.last_used_indexes
            &&& after.config.name == before.config.name
            &&& after.config.descriptor == before.config.descriptor
            &&& after.config.birthheight == before.config.birthheight
            &&& after.generation == before.generation
        }),
{
}

/// An update that changes a record leaves it with what was asked for.
pub proof fn update_gives_what_was_asked(
    state: StateModel,
    name: Seq<char>,
    lookahead: Option<u32>,
    confirmations: Option<u32>,
)
    requires
        update_record(state, name, lookahead, confirmations) is Ok,
    ensures
        ({
            let after = update_record(state, name, lookahead, confirmations)->Ok_0.1;
            &&& lookahead is Some ==> after.config.lookahead == lookahead->Some_0
            &&& confirmations is Some ==> after.config.confirmations == confirmations->Some_0
        }),
{
}

/// A descriptor that is registered can be registered again only to resume a
/// first scan that was interrupted, and only with the same request.
pub proof fn registration_is_resumed_exactly(state: StateModel, config: ConfigModel)
    requires
        registration(state, config) is Ok,
        state.inner.records.contains_key(config.name),
    ensures
        registration(state, config)->Ok_0.0 == state.inner.records[config.name],
        state.inner.records[config.name].config == config,
        !state.inner.records[config.name].initial_scan_complete,
{
}

/// A rescan that was begun can be resumed: with its own start and lookahead it
/// is accepted again, and leaves the same record.
pub proof fn begun_rescan_is_resumable(
    state: StateModel,
    later: StateModel,
    record: RecordModel,
    set: SetModel,
    start: u32,
    lookahead: u32,
)
    requires
        begun_rescan(state, record, set, start, lookahead) is Ok,
    ensures
        begun_rescan(
            later,
            begun_rescan(state, record, set, start, lookahead)->Ok_0,
            set,
            start,
            lookahead,
        ) == begun_rescan(state, record, set, start, lookahead),
{
}

/// The configuration of a registration is what was asked for.
pub proof fn request_is_taken_as_it_is(request: RegisterModel)
    ensures
        requested_config(request).name == request.name,
        requested_config(request).descriptor == request.descriptor,
        requested_config(request).birthheight == request.birthheight,
        requested_config(request).lookahead == request.lookahead,
        requested_config(request).confirmations == request.confirmations,
{
}

/// Each script is scanned for under the owner that names its own place.
pub proof fn scan_names_each_script(name: Seq<char>, scripts: Seq<ScriptModel>, k: int)
    ensures
        scan_pairs(name, scripts).len() == scripts.len(),
        0 <= k < scripts.len() ==> scan_pairs(name, scripts)[k].0 == script_owner_text(
            name,
            scripts[k].branch,
            scripts[k].index,
        ) && scan_pairs(name, scripts)[k].1 == scripts[k].scriptpubkey,
{
}

/// A registration that is accepted scans on every branch for the script at each
/// index below the greatest lookahead, and so at least for each index below the
/// lookahead that was asked for; without a wildcard that is the script at index
/// zero. It scans for no other script.
pub proof fn registration_scans_every_place(state: StateModel, config: ConfigModel)
    requires
        registration(state, config) is Ok,
    ensures
        ({
            let set = config_set(config, state.network)->Ok_0;
            let scripts = registration(state, config)->Ok_0.1;
            &&& config_set(config, state.network) is Ok
            &&& forall|b: u32, i: u32|
                b < set.branches && i < 100_000 && (set.ranged || i == 0) ==> has_script(
                    scripts,
                    b,
                    i,
                )
            &&& forall|b: u32, i: u32|
                b < set.branches && i < config.lookahead ==> has_script(scripts, b, i)
            &&& forall|k: int|
                0 <= k < scripts.len() ==> is_script_of(
                    #[trigger] scripts[k],
                    config.descriptor,
                    scripts[k].branch,
                    scripts[k].index,
                ) && scripts[k].branch < set.branches && scripts[k].index < 100_000 && (set.ranged
                    || scripts[k].index == 0)
        }),
{
    accepted_configuration_is_sound(config, state.network);
    let set = config_set(config, state.network)->Ok_0;
    accepted_descriptor_is_sound(config.descriptor, state.network);
    range_is_whole(set, 0, initial_scan_end(set));
}

/// A registration is accepted where its configuration is, its scripts can be
/// derived, no other descriptor watches one of them, and the name is not known or
/// an interrupted registration with the same configuration is.
pub proof fn sound_registration_is_accepted(state: StateModel, config: ConfigModel)
    requires
        config_set(config, state.network) is Ok,
        forall|b: u32, i: u32|
            b < config_set(config, state.network)->Ok_0.branches && i < 100_000 && (config_set(
                config,
                state.network,
            )->Ok_0.ranged || i == 0) ==> (#[trigger] script_at(config.descriptor, b, i)) is Ok,
        overlap_refusal(
            config.name,
            range_result(
                config_set(config, state.network)->Ok_0,
                0,
                if config_set(config, state.network)->Ok_0.ranged {
                    100_000
                } else {
                    1
                },
            )->Ok_0,
            state.inner.records,
            state.network,
        ) is None,
        state.inner.records.contains_key(config.name) ==> {
            let existing = state.inner.records[config.name];
            &&& existing.config == config
            &&& existing.status == DescriptorStatus::Syncing
            &&& !existing.initial_scan_complete
            &&& existing.pending_rescan is None
        },
    ensures
        registration(state, config) is Ok,
{
    accepted_configuration_is_sound(config, state.network);
    accepted_descriptor_is_sound(config.descriptor, state.network);
    let set = config_set(config, state.network)->Ok_0;
    range_is_whole(set, 0, config.lookahead);
    range_is_whole(set, 0, initial_scan_end(set));
}

/// The record of a descriptor that was not known has what was asked for, nothing
/// found and nothing waiting, watches every branch as far as the lookahead, and
/// is not active until its first scan is complete.
pub proof fn registered_record_is_new(state: StateModel, config: ConfigModel, branch: u32)
    requires
        registration(state, config) is Ok,
        !state.inner.records.contains_key(config.name),
    ensures
        ({
            let set = config_set(config, state.network)->Ok_0;
            let record = registration(state, config)->Ok_0.0;
            &&& record.config == config
            &&& record.utxos == Map::<Seq<char>, UtxoModel>::empty()
            &&& record.pending_movements == Map::<Seq<char>, MovementModel>::empty()
            &&& record.external_outpoints == Map::<Seq<char>, ()>::empty()
            &&& record.next_indexes == Map::<u32, u32>::empty()
            &&& record.last_used_indexes == Map::<u32, u32>::empty()
            &&& record.last_used_index is None
            &&& record.range_end == config.lookahead
            &&& record.range_ends.contains_key(branch) <==> branch < set.branches
            &&& branch < set.branches ==> record.range_ends[branch] == config.lookahead
            &&& record.status == DescriptorStatus::Syncing
            &&& !record.initial_scan_complete
            &&& record.pending_rescan is None
            &&& record.incident is None
            &&& record.generation is None
        }),
{
    accepted_configuration_is_sound(config, state.network);
}

/// What a record has found, waits for and was asked for is the same in another.
pub open spec fn keeps_findings(after: RecordModel, before: RecordModel) -> bool {
    &&& after.utxos == before.utxos
    &&& after.pending_movements == before.pending_movements
    &&& after.external_outpoints == before.external_outpoints
    &&& after.next_indexes == before.next_indexes
    &&& after.last_used_indexes == before.last_used_indexes
    &&& after.config.name == before.config.name
    &&& after.config.descriptor == before.config.descriptor
    &&& after.config.birthheight == before.config.birthheight
    &&& after.generation == before.generation
}

/// A rescan is refused where it asks for a lookahead out of bounds, starts before
/// the birth, where the descriptor is not known, is being deleted or was never
/// scanned, and where another rescan or other work was interrupted.
pub proof fn unsound_rescan_is_refused(
    state: StateModel,
    name: Seq<char>,
    start_block: Option<u32>,
    lookahead: Option<u32>,
)
    requires
        rescan_record(state, name, start_block, lookahead) is Ok,
    ensures
        ({
            let before = state.inner.records[name];
            &&& state.inner.records.contains_key(name)
            &&& lookahead is Some ==> 1 <= lookahead->Some_0 <= 100_000
            &&& start_block is Some ==> start_block->Some_0 >= before.config.birthheight
            &&& before.status != DescriptorStatus::Deleting
            &&& before.initial_scan_complete
            &&& before.pending_rescan matches Some(pending) ==> {
                &&& start_block is Some ==> start_block->Some_0 == pending.start_block
                &&& lookahead is Some ==> lookahead->Some_0 == before.config.lookahead
            }
            &&& before.pending_rescan is None ==> before.status == DescriptorStatus::Active
        }),
{
}

/// A rescan starts at the block that was asked for, else where an interrupted one
/// had started, else at the birth, and its record says so. It has the lookahead
/// that was asked for, else the one that it had, waits for its scan, and keeps
/// what was found.
pub proof fn rescan_is_as_asked(
    state: StateModel,
    name: Seq<char>,
    start_block: Option<u32>,
    lookahead: Option<u32>,
)
    requires
        rescan_record(state, name, start_block, lookahead) is Ok,
    ensures
        ({
            let before = state.inner.records[name];
            let after = rescan_record(state, name, start_block, lookahead)->Ok_0;
            let start = rescan_start(before, start_block);
            &&& start_block is Some ==> start == start_block->Some_0
            &&& start_block is None && before.pending_rescan is Some ==> start
                == before.pending_rescan->Some_0.start_block
            &&& start_block is None && before.pending_rescan is None ==> start
                == before.config.birthheight
            &&& after.pending_rescan == Some(PendingRescan { start_block: start })
            &&& after.status == DescriptorStatus::Syncing
            &&& after.config.lookahead == (match lookahead {
                Some(lookahead) => lookahead,
                None => before.config.lookahead,
            })
            &&& after.config.confirmations == before.config.confirmations
            &&& after.initial_scan_complete
            &&& keeps_findings(after, before)
        }),
{
}

/// A rescan scans on every branch for the script at each index below the end of
/// that branch, under the owner that names the place.
pub proof fn rescan_scans_what_is_watched(record: RecordModel, network: Seq<char>)
    requires
        rescan_pairs(record, network) is Ok,
    ensures
        ({
            let set = config_set(record.config, network)->Ok_0;
            let pairs = rescan_pairs(record, network)->Ok_0;
            &&& config_set(record.config, network) is Ok
            &&& forall|b: u32, i: u32|
                b < set.branches && i < watched_end(record, b) && (set.ranged || i == 0)
                    ==> #[trigger] pairs.contains(
                    (
                        script_owner_text(record.config.name, b, i),
                        hex_text(script_at(record.config.descriptor, b, i)->Ok_0),
                    ),
                )
        }),
{
    accepted_configuration_is_sound(record.config, network);
    let set = config_set(record.config, network)->Ok_0;
    watched_scripts_are_whole(record, set);
    let scripts = watched_scripts(record, set)->Ok_0;
    let pairs = rescan_pairs(record, network)->Ok_0;
    assert forall|b: u32, i: u32|
        b < set.branches && i < watched_end(record, b) && (set.ranged || i
            == 0) implies #[trigger] pairs.contains(
        (
            script_owner_text(record.config.name, b, i),
            hex_text(script_at(record.config.descriptor, b, i)->Ok_0),
        ),
    ) by {
        assert(has_script(scripts, b, i));
        let k = choose|k: int|
            0 <= k < scripts.len() && (#[trigger] scripts[k]).branch == b && scripts[k].index == i;
        assert(is_script_of(scripts[k], set.text, b, i));
        assert(pairs[k] == (
            script_owner_text(record.config.name, b, i),
            hex_text(script_at(record.config.descriptor, b, i)->Ok_0),
        ));
    }
}

/// A rescan may be finished exactly while its record waits for the same start and
/// the same scan runs for it.
pub proof fn rescan_must_still_be_waited_for(
    record: RecordModel,
    start_block: u32,
    operation_id: Seq<char>,
)
    ensures
        rescan_fault(record, start_block, operation_id) is None <==> {
            &&& record.pending_rescan is Some
            &&& record.pending_rescan->Some_0.start_block == start_block
            &&& record.scan_operation_id == Some(operation_id)
        },
{
}

/// An update leaves the lookahead and the depth that were asked for, and the ones
/// that the record had where none was. A descriptor that changes is not active until
/// its watches are there.
pub proof fn update_is_as_asked(
    state: StateModel,
    name: Seq<char>,
    lookahead: Option<u32>,
    confirmations: Option<u32>,
)
    requires
        update_record(state, name, lookahead, confirmations) is Ok,
    ensures
        ({
            let before = state.inner.records[name];
            let step = update_record(state, name, lookahead, confirmations)->Ok_0.0;
            let after = update_record(state, name, lookahead, confirmations)->Ok_0.1;
            let same = (lookahead is None || lookahead->Some_0 == before.config.lookahead) && (
            confirmations is None || confirmations->Some_0 == before.config.confirmations);
            &&& state.inner.records.contains_key(name)
            &&& !state.active_scans.contains_key(name)
            &&& lookahead is Some || confirmations is Some
            &&& lookahead is Some ==> 1 <= lookahead->Some_0 <= 100_000
            &&& confirmations is Some ==> 1 <= confirmations->Some_0 <= 2_016
            &&& before.status != DescriptorStatus::Deleting
            &&& before.status == DescriptorStatus::Syncing ==> before.pending_rescan is None
                && before.initial_scan_complete
            &&& after.config.lookahead == (match lookahead {
                Some(lookahead) => lookahead,
                None => before.config.lookahead,
            })
            &&& after.config.confirmations == (match confirmations {
                Some(confirmations) => confirmations,
                None => before.config.confirmations,
            })
            &&& keeps_findings(after, before)
            &&& step == UpdateStep::Changed <==> !same
            &&& step == UpdateStep::Resumed <==> same && before.status
                == DescriptorStatus::Syncing
            &&& step == UpdateStep::Unchanged <==> same && before.status
                == DescriptorStatus::Active
            &&& same ==> after == before
            &&& !same ==> after.status == DescriptorStatus::Syncing && before.status
                == DescriptorStatus::Active
        }),
{
}

/// A registration, a rescan, an update and a reconciliation that end leave the
/// descriptor active, with a success at that time, and change nothing that it has
/// found or was asked for. No scan runs for it then, and none is waited for.
pub proof fn finished_work_leaves_the_descriptor_active(
    record: RecordModel,
    operation: Seq<char>,
    now: u64,
)
    ensures
        ({
            let after = registered(record, now);
            &&& after.status == DescriptorStatus::Active
            &&& after.scan_operation_id is None
            &&& after.last_success_at == Some(now)
            &&& after.config == record.config
            &&& after.range_ends == record.range_ends
            &&& after.range_end == record.range_end
            &&& after.initial_scan_complete == record.initial_scan_complete
            &&& keeps_findings(after, record)
        }),
        ({
            let after = rescanned(record, now);
            &&& after.status == DescriptorStatus::Active
            &&& after.pending_rescan is None
            &&& after.scan_operation_id is None
            &&& after.last_success_at == Some(now)
            &&& after.config == record.config
            &&& after.range_ends == record.range_ends
            &&& after.range_end == record.range_end
            &&& after.initial_scan_complete == record.initial_scan_complete
            &&& keeps_findings(after, record)
        }),
        ({
            let after = activated(record, operation, now);
            &&& after.status == DescriptorStatus::Active
            &&& after.last_success_at == Some(now)
            &&& after.pending_rescan == record.pending_rescan
            &&& after.config == record.config
            &&& after.range_ends == record.range_ends
            &&& after.range_end == record.range_end
            &&& keeps_findings(after, record)
        }),
        ({
            let after = reconciled(record, now);
            &&& after.status == DescriptorStatus::Active
            &&& after.scan_operation_id is None
            &&& after.last_success_at == Some(now)
            &&& after.config == record.config
            &&& after.range_ends == record.range_ends
            &&& after.range_end == record.range_end
            &&& keeps_findings(after, record)
        }),
{
}

/// A success of the work that a descriptor goes through resolves an incident of
/// any such work, unless an operator must resolve it.
pub proof fn finished_work_resolves_its_incident(record: RecordModel, now: u64)
    requires
        record.incident is Some,
        !record.incident->Some_0.operator_action_required,
        record.incident->Some_0.operation == "register"@ || record.incident->Some_0.operation
            == "rescan"@ || record.incident->Some_0.operation == "update"@
            || record.incident->Some_0.operation == "startup_reconciliation"@,
    ensures
        registered(record, now).incident is None,
        rescanned(record, now).incident is None,
        reconciled(record, now).incident is None,
        activated(record, "update"@, now).incident is None,
{
}

/// The first scan of a descriptor is complete only at the word of the scan that
/// runs for it, and nothing else changes then.
pub proof fn first_scan_is_completed_once(record: RecordModel, operation_id: Seq<char>)
    ensures
        initial_scan_completed(record, operation_id) is Ok <==> record.scan_operation_id == Some(
            operation_id,
        ),
        initial_scan_completed(record, operation_id) matches Ok(after) ==> {
            &&& after.initial_scan_complete
            &&& after.status == record.status
            &&& after.scan_operation_id == record.scan_operation_id
            &&& after.range_ends == record.range_ends
            &&& after.config == record.config
            &&& keeps_findings(after, record)
        },
        initial_scan_completed(scan_marked(record, operation_id), operation_id) is Ok,
        scan_marked(record, operation_id).status == record.status,
        scan_marked(record, operation_id).initial_scan_complete == record.initial_scan_complete,
        scan_marked(record, operation_id).pending_rescan == record.pending_rescan,
        keeps_findings(scan_marked(record, operation_id), record),
{
}

/// A removal is refused while a scan runs and where the descriptor is not known.
/// Its record says that the descriptor is being deleted, and is stored where it
/// did not say so before.
pub proof fn removal_is_marked_first(state: StateModel, name: Seq<char>)
    ensures
        removal(state, name) is Ok <==> state.inner.records.contains_key(name)
            && !state.active_scans.contains_key(name),
        removal(state, name) matches Ok((after, store)) ==> {
            let before = state.inner.records[name];
            &&& after.status == DescriptorStatus::Deleting
            &&& keeps_findings(after, before)
            &&& after.config == before.config
            &&& store <==> before.status != DescriptorStatus::Deleting
        },
{
}

/// A descriptor is reconciled where it is known, no scan runs for it, and its
/// first scan is complete and no rescan waits. One that is being deleted is
/// removed instead. Its record is taken as it is.
pub proof fn reconciliation_takes_the_record(state: StateModel, name: Seq<char>)
    ensures
        reconcilable(state, name) matches Ok((removes, record)) ==> {
            &&& state.inner.records.contains_key(name)
            &&& record == state.inner.records[name]
            &&& removes <==> record.status == DescriptorStatus::Deleting
            &&& !removes ==> record.initial_scan_complete && record.pending_rescan is None
        },
        reconcilable(state, name) is Ok <==> {
            let record = state.inner.records[name];
            &&& state.inner.records.contains_key(name)
            &&& !state.active_scans.contains_key(name)
            &&& record.status == DescriptorStatus::Deleting || (record.initial_scan_complete
                && record.pending_rescan is None)
        },
{
}

/// A descriptor is shown as its record is, with the number of its branches, and one
/// that is not known is not shown.
pub proof fn descriptor_is_shown(state: StateModel, name: Seq<char>)
    ensures
        !state.inner.records.contains_key(name) ==> inspected(state, name) is Err,
        state.inner.records.contains_key(name) ==> {
            let record = state.inner.records[name];
            let set = config_set(record.config, state.network);
            &&& inspected(state, name) is Ok <==> set is Ok
            &&& set is Ok ==> inspected(state, name)->Ok_0 == JsonModel::Object(
                record_fields(record, set->Ok_0.branches),
            )
        },
{
}

/// The first views of a row are those of its first records.
proof fn listed_views_are(
    records: Map<Seq<char>, RecordModel>,
    keys: Seq<Seq<char>>,
    count: nat,
    network: Seq<char>,
    i: int,
)
    requires
        count <= keys.len(),
        listed_views(records, keys, count, network) is Ok,
    ensures
        listed_views(records, keys, count, network)->Ok_0.len() == count,
        0 <= i < count ==> network_view(records[keys[i]], network) == Ok::<
            JsonModel,
            RefusalModel,
        >(listed_views(records, keys, count, network)->Ok_0[i]),
    decreases count,
{
    if count > 0 {
        listed_views_are(records, keys, (count - 1) as nat, network, i);
    }
}

/// All descriptors are listed, each once and as it is inspected, in the order of
/// their names.
pub proof fn every_descriptor_is_listed(state: StateModel, i: int)
    requires
        state.inner.records.dom().finite(),
        all_views(state) is Ok,
    ensures
        ({
            let views = all_views(state)->Ok_0.list_field("descriptors"@);
            let keys = sorted_keys(state.inner.records.dom());
            &&& views is Some && views->Some_0.len() == state.inner.records.dom().len()
            &&& 0 <= i < keys.len() ==> inspected(state, keys[i]) == Ok::<
                JsonModel,
                RefusalModel,
            >(views->Some_0[i])
        }),
{
    let keys = sorted_keys(state.inner.records.dom());
    sorted_keys_of(state.inner.records.dom());
    listed_views_are(state.inner.records, keys, keys.len(), state.network, i);
    named_field_at(all_views(state)->Ok_0->Object_0, 0);
    if 0 <= i < keys.len() {
        assert(keys.to_set().contains(keys[i]));
    }
}

/// The answer to a removal names the descriptor that was removed.
pub proof fn removal_is_answered(name: Seq<char>)
    ensures
        removal_shown(name).text_field("name"@) == Some(name),
        removal_shown(name).field("removed"@) == Some(JsonModel::Bool(true)),
{
    reveal_strlit("name");
    reveal_strlit("removed");
    assert("name"@.len() == 4);
    assert("removed"@.len() == 7);
    named_field_at(removal_shown(name)->Object_0, 0);
    named_field_at(removal_shown(name)->Object_0, 1);
}

/// A registration scans, under the owner of each place, for the script at every
/// index below the greatest lookahead on every branch, and its answer counts the
/// branches of the descriptor.
pub proof fn registration_plan_names_every_place(
    state: StateModel,
    config: ConfigModel,
    branch: u32,
    index: u32,
)
    requires
        registration_plan(state, config) is Ok,
    ensures
        ({
            let (record, pairs, branches) = registration_plan(state, config)->Ok_0;
            let set = config_set(config, state.network)->Ok_0;
            &&& record.config == config
            &&& branches == set.branches
            &&& branch < branches && index < 100_000 && (set.ranged || index == 0)
                ==> pairs.contains(
                (
                    script_owner_text(config.name, branch, index),
                    hex_text(script_at(config.descriptor, branch, index)->Ok_0),
                ),
            )
        }),
{
    registration_scans_every_place(state, config);
    let (record, pairs, branches) = registration_plan(state, config)->Ok_0;
    let set = config_set(config, state.network)->Ok_0;
    let scripts = registration(state, config)->Ok_0.1;
    if branch < branches && index < 100_000 && (set.ranged || index == 0) {
        assert(has_script(scripts, branch, index));
        let k = choose|k: int|
            0 <= k < scripts.len() && (#[trigger] scripts[k]).branch == branch && scripts[k].index
                == index;
        assert(is_script_of(scripts[k], config.descriptor, branch, index));
        scan_names_each_script(config.name, scripts, k);
        assert(pairs[k] == (
            script_owner_text(config.name, branch, index),
            hex_text(script_at(config.descriptor, branch, index)->Ok_0),
        ));
    }
}

/// The scan of a rescan starts at the block that the record waits for.
pub proof fn rescan_starts_where_its_record_says(
    state: StateModel,
    name: Seq<char>,
    start_block: Option<u32>,
    lookahead: Option<u32>,
)
    ensures
        rescan_plan(state, name, start_block, lookahead) matches Ok((record, start)) ==> {
            &&& record.pending_rescan == Some(PendingRescan { start_block: start })
            &&& rescan_record(state, name, start_block, lookahead) == Ok::<
                RecordModel,
                RefusalModel,
            >(record)
            &&& start_block is Some ==> start == start_block->Some_0
        },
        rescan_plan(state, name, start_block, lookahead) is Ok <==> rescan_record(
            state,
            name,
            start_block,
            lookahead,
        ) is Ok,
{
}

/// A record whose first scan is completed is stored where that was not noted
/// before.
pub proof fn completed_scan_is_stored_once(record: RecordModel, operation_id: Seq<char>)
    ensures
        initial_scan_completed(record, operation_id) matches Ok(after) ==> {
            &&& completes_scan(record) <==> after.initial_scan_complete
                != record.initial_scan_complete
            &&& !completes_scan(after)
        },
{
}

/// A registration of a name that is taken is refused, unless it resumes the
/// interrupted one, and one whose descriptor is not accepted is refused as that is.
pub proof fn refused_registration_says_why(state: StateModel, config: ConfigModel)
    ensures
        config_set(config, state.network) matches Err(reason) ==> refuses(
            registration(state, config),
            reason.error,
            state.network,
        ),
        registration(state, config) is Err && config_set(config, state.network) is Ok
            && range_result(config_set(config, state.network)->Ok_0, 0, config.lookahead) is Ok
            && range_result(
            config_set(config, state.network)->Ok_0,
            0,
            initial_scan_end(config_set(config, state.network)->Ok_0),
        ) is Ok ==> {
            let scripts = range_result(
                config_set(config, state.network)->Ok_0,
                0,
                initial_scan_end(config_set(config, state.network)->Ok_0),
            )->Ok_0;
            match overlap_refusal(config.name, scripts, state.inner.records, state.network) {
                Some(refusal) => registration(state, config)->Err_0 == refusal,
                None => refuses(
                    registration(state, config),
                    TrackerError::AlreadyRegistered,
                    config.name,
                ),
            }
        },
{
}

/// A rescan is refused for the first thing that stands against it.
pub proof fn refused_rescan_says_why(
    state: StateModel,
    name: Seq<char>,
    start_block: Option<u32>,
    lookahead: Option<u32>,
)
    ensures
        ({
            let r = rescan_record(state, name, start_block, lookahead);
            let record = state.inner.records[name];
            let fair = lookahead is Some ==> 1 <= lookahead->Some_0 <= 100_000;
            let present = fair && state.inner.records.contains_key(name);
            let scanned = present && record.status != DescriptorStatus::Deleting
                && record.initial_scan_complete;
            let sound = scanned && config_set(record.config, state.network) is Ok;
            let set = config_set(record.config, state.network)->Ok_0;
            let gap = match lookahead {
                Some(lookahead) => lookahead,
                None => record.config.lookahead,
            };
            let able = sound && (set.ranged || gap == 1);
            let later = able && (start_block is Some ==> start_block->Some_0
                >= record.config.birthheight);
            &&& lookahead == Some(0u32) ==> refuses(r, TrackerError::LookaheadZero, name)
            &&& lookahead is Some && lookahead->Some_0 > 100_000 ==> refuses(
                r,
                TrackerError::LookaheadTooLarge,
                name,
            )
            &&& fair && !present ==> refuses(r, TrackerError::NotRegistered, name)
            &&& present && record.status == DescriptorStatus::Deleting ==> refuses(
                r,
                TrackerError::BeingDeleted,
                name,
            )
            &&& present && record.status != DescriptorStatus::Deleting
                && !record.initial_scan_complete ==> refuses(
                r,
                TrackerError::InitialScanInterrupted,
                name,
            )
            &&& sound && !able ==> refuses(r, TrackerError::StaticLookahead, name)
            &&& able && !later ==> refuses(
                r,
                TrackerError::StartBeforeBirth { birthheight: record.config.birthheight },
                name,
            )
            &&& later && record.pending_rescan is Some && start_block is Some
                && start_block->Some_0 != record.pending_rescan->Some_0.start_block ==> refuses(
                r,
                TrackerError::RescanMismatch {
                    start_block: record.pending_rescan->Some_0.start_block,
                    lookahead: record.config.lookahead,
                },
                record.config.name,
            )
            &&& later && record.pending_rescan is None && start_block is Some && record.status
                != DescriptorStatus::Active ==> refuses(
                r,
                TrackerError::OtherInterrupted,
                record.config.name,
            )
        }),
{
}

/// An update is refused for the first thing that stands against it.
pub proof fn refused_update_says_why(
    state: StateModel,
    name: Seq<char>,
    lookahead: Option<u32>,
    confirmations: Option<u32>,
)
    ensures
        ({
            let r = update_record(state, name, lookahead, confirmations);
            let record = state.inner.records[name];
            let fair = (lookahead is Some || confirmations is Some) && (lookahead is Some ==> 1
                <= lookahead->Some_0 <= 100_000) && (confirmations is Some ==> 1
                <= confirmations->Some_0 <= 2_016);
            let idle = fair && !state.active_scans.contains_key(name);
            let present = idle && state.inner.records.contains_key(name);
            let sound = present && record.status != DescriptorStatus::Deleting && config_set(
                record.config,
                state.network,
            ) is Ok;
            let set = config_set(record.config, state.network)->Ok_0;
            let gap = match lookahead {
                Some(lookahead) => lookahead,
                None => record.config.lookahead,
            };
            let able = sound && (set.ranged || gap == 1);
            &&& lookahead is None && confirmations is None ==> refuses(
                r,
                TrackerError::UpdateEmpty,
                name,
            )
            &&& lookahead == Some(0u32) ==> refuses(r, TrackerError::LookaheadZero, name)
            &&& lookahead is None && confirmations == Some(0u32) ==> refuses(
                r,
                TrackerError::ConfirmationsZero,
                name,
            )
            &&& lookahead is None && confirmations is Some && confirmations->Some_0 > 2_016
                ==> refuses(r, TrackerError::ConfirmationsTooLarge, name)
            &&& fair && !idle ==> refuses(r, TrackerError::ScanActive, name)
            &&& idle && !present ==> refuses(r, TrackerError::NotRegistered, name)
            &&& present && record.status == DescriptorStatus::Deleting ==> refuses(
                r,
                TrackerError::BeingDeleted,
                name,
            )
            &&& sound && !able ==> refuses(r, TrackerError::StaticLookahead, name)
            &&& able && record.status == DescriptorStatus::Syncing && record.pending_rescan is Some
                ==> refuses(r, TrackerError::RescanFirst, name)
            &&& able && record.status == DescriptorStatus::Syncing && record.pending_rescan is None
                && !record.initial_scan_complete ==> refuses(
                r,
                TrackerError::InitialScanInterrupted,
                name,
            )
            &&& able && record.status == DescriptorStatus::Syncing && record.pending_rescan is None
                && record.initial_scan_complete && gap != record.config.lookahead ==> refuses(
                r,
                TrackerError::UpdateMismatch {
                    lookahead: record.config.lookahead,
                    confirmations: record.config.confirmations,
                },
                name,
            )
        }),
{
}

/// A removal and a reconciliation are refused while a scan runs and of what is not
/// known, and a reconciliation also while a scan is owed.
pub proof fn refused_reconciliation_says_why(state: StateModel, name: Seq<char>)
    ensures
        ({
            let record = state.inner.records[name];
            let scanning = state.active_scans.contains_key(name);
            let present = !scanning && state.inner.records.contains_key(name);
            &&& scanning ==> refuses(removal(state, name), TrackerError::ScanActive, name)
            &&& scanning ==> refuses(reconcilable(state, name), TrackerError::ScanActive, name)
            &&& !scanning && !present ==> refuses(
                removal(state, name),
                TrackerError::NotRegistered,
                name,
            )
            &&& !scanning && !present ==> refuses(
                reconcilable(state, name),
                TrackerError::NotRegistered,
                name,
            )
            &&& present && record.status != DescriptorStatus::Deleting
                && !record.initial_scan_complete ==> refuses(
                reconcilable(state, name),
                TrackerError::InitialScanInterrupted,
                name,
            )
            &&& present && record.status != DescriptorStatus::Deleting
                && record.initial_scan_complete && record.pending_rescan is Some ==> refuses(
                reconcilable(state, name),
                TrackerError::RescanInterrupted,
                name,
            )
        }),
{
}

} // verus!
