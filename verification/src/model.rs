//! The data that tracker keeps and exchanges.

use crate::error::TrackerError;
use crate::json::{opt_model, opt_text};
use crate::ordered::{Duplicate, TextMap};
use crate::text::{
    around, begins_with, chars_of, decimal, decimal_text, is_digit, parse_number, parsed_number,
    parts, same_text, split, starts_with,
};
use std::collections::BTreeMap;
use vstd::prelude::*;
use vstd::string::*;

verus! {

/// The first part of every key in the datastore.
pub const STORE_PREFIX: &'static str = "tracker";

/// The part of the datastore that holds descriptor records.
pub const STORE_DESCRIPTORS: &'static str = "descriptors";

/// The part of the datastore that holds issued addresses.
pub const STORE_ADDRESSES: &'static str = "addresses";

/// What the owner of every watch of tracker begins with.
pub const OWNER_PREFIX: &'static str = "plugin/tracker";

/// The lookahead of a registration that names none.
pub const DEFAULT_LOOKAHEAD: u32 = 20;

/// The confirmation depth of a registration that names none.
pub const DEFAULT_CONFIRMATIONS: u32 = 1;

/// The greatest lookahead.
pub const MAX_LOOKAHEAD: u32 = 100_000;

/// The greatest confirmation depth.
pub const MAX_CONFIRMATIONS: u32 = 2_016;

/// The greatest size of an annotation in bytes.
pub const MAX_ANNOTATION_BYTES: usize = 1_024;

/// What a descriptor was registered with.
#[derive(Clone, Debug, PartialEq, Eq)]
pub struct DescriptorConfig {
    pub name: String,
    pub descriptor: String,
    pub birthheight: u32,
    pub lookahead: u32,
    pub confirmations: u32,
}

#[verifier::ext_equal]
pub struct ConfigModel {
    pub name: Seq<char>,
    pub descriptor: Seq<char>,
    pub birthheight: u32,
    pub lookahead: u32,
    pub confirmations: u32,
}

impl View for DescriptorConfig {
    type V = ConfigModel;

    open spec fn view(&self) -> ConfigModel {
        ConfigModel {
            name: self.name@,
            descriptor: self.descriptor@,
            birthheight: self.birthheight,
            lookahead: self.lookahead,
            confirmations: self.confirmations,
        }
    }
}

/// What a movement tells Bookkeeper.
#[derive(Clone, Copy, Debug, PartialEq, Eq, Structural)]
pub enum MovementKind {
    Deposit,
    Spend,
    ExternalDeposit,
    ExternalDescription,
}

/// Where a descriptor stands in its life.
#[derive(Clone, Copy, Debug, PartialEq, Eq, Structural)]
pub enum DescriptorStatus {
    Syncing,
    Active,
    Deleting,
}

impl Default for DescriptorStatus {
    fn default() -> (r: Self)
        ensures
            r == DescriptorStatus::Active,
    {
        DescriptorStatus::Active
    }
}

/// A rescan that was begun and not finished.
#[derive(Clone, Copy, Debug, PartialEq, Eq, Structural)]
pub struct PendingRescan {
    pub start_block: u32,
}

/// A movement that Bookkeeper has still to be told.
#[derive(Clone, Debug, PartialEq, Eq)]
pub struct PendingMovement {
    pub id: String,
    pub kind: MovementKind,
    pub outpoint: String,
    pub amount_msat: u64,
    pub blockheight: u32,
    pub timestamp: u64,
    pub spending_txid: Option<String>,
    pub description: Option<String>,
}

/// What a [`PendingMovement`] stands for.
#[verifier::ext_equal]
pub struct MovementModel {
    pub id: Seq<char>,
    pub kind: MovementKind,
    pub outpoint: Seq<char>,
    pub amount_msat: u64,
    pub blockheight: u32,
    pub timestamp: u64,
    pub spending_txid: Option<Seq<char>>,
    pub description: Option<Seq<char>>,
}

impl View for PendingMovement {
    type V = MovementModel;

    open spec fn view(&self) -> MovementModel {
        MovementModel {
            id: self.id@,
            kind: self.kind,
            outpoint: self.outpoint@,
            amount_msat: self.amount_msat,
            blockheight: self.blockheight,
            timestamp: self.timestamp,
            spending_txid: opt_text(self.spending_txid),
            description: opt_text(self.description),
        }
    }
}

/// An output of a descriptor.
#[derive(Clone, Debug, PartialEq, Eq)]
pub struct TrackedUtxo {
    pub outpoint: String,
    pub amount_msat: u64,
    pub derivation_index: u32,
    pub branch: u32,
    pub deposit_height: u32,
    pub spent_by: Option<String>,
    pub spent_height: Option<u32>,
    pub annotation: Option<String>,
}

/// What a [`TrackedUtxo`] stands for.
#[verifier::ext_equal]
pub struct UtxoModel {
    pub outpoint: Seq<char>,
    pub amount_msat: u64,
    pub derivation_index: u32,
    pub branch: u32,
    pub deposit_height: u32,
    pub spent_by: Option<Seq<char>>,
    pub spent_height: Option<u32>,
    pub annotation: Option<Seq<char>>,
}

impl View for TrackedUtxo {
    type V = UtxoModel;

    open spec fn view(&self) -> UtxoModel {
        UtxoModel {
            outpoint: self.outpoint@,
            amount_msat: self.amount_msat,
            derivation_index: self.derivation_index,
            branch: self.branch,
            deposit_height: self.deposit_height,
            spent_by: opt_text(self.spent_by),
            spent_height: self.spent_height,
            annotation: opt_text(self.annotation),
        }
    }
}

/// A failure that has not been resolved.
#[derive(Clone, Debug, PartialEq, Eq)]
pub struct TrackerIncident {
    pub code: String,
    pub operation: String,
    pub message: String,
    pub first_seen: u64,
    pub last_seen: u64,
    pub retry_count: u64,
    pub operator_action_required: bool,
}

/// What a [`TrackerIncident`] stands for.
#[verifier::ext_equal]
pub struct IncidentModel {
    pub code: Seq<char>,
    pub operation: Seq<char>,
    pub message: Seq<char>,
    pub first_seen: u64,
    pub last_seen: u64,
    pub retry_count: u64,
    pub operator_action_required: bool,
}

impl View for TrackerIncident {
    type V = IncidentModel;

    open spec fn view(&self) -> IncidentModel {
        IncidentModel {
            code: self.code@,
            operation: self.operation@,
            message: self.message@,
            first_seen: self.first_seen,
            last_seen: self.last_seen,
            retry_count: self.retry_count,
            operator_action_required: self.operator_action_required,
        }
    }
}

/// What an optional incident stands for.
pub open spec fn opt_incident(value: Option<TrackerIncident>) -> Option<IncidentModel> {
    match value {
        Some(incident) => Some(incident@),
        None => None,
    }
}

/// All that is kept of a descriptor.
#[derive(Clone, Debug, PartialEq, Eq)]
pub struct DescriptorRecord {
    pub config: DescriptorConfig,
    pub utxos: TextMap<TrackedUtxo>,
    pub pending_movements: TextMap<PendingMovement>,
    pub external_outpoints: TextMap<()>,
    pub next_indexes: BTreeMap<u32, u32>,
    pub range_ends: BTreeMap<u32, u32>,
    pub last_used_indexes: BTreeMap<u32, u32>,
    pub range_end: u32,
    pub last_used_index: Option<u32>,
    pub status: DescriptorStatus,
    pub initial_scan_complete: bool,
    pub pending_rescan: Option<PendingRescan>,
    pub scan_operation_id: Option<String>,
    pub incident: Option<TrackerIncident>,
    pub last_success_at: Option<u64>,
    pub generation: Option<u64>,
}

/// What a [`DescriptorRecord`] stands for.
#[verifier::ext_equal]
pub struct RecordModel {
    pub config: ConfigModel,
    pub utxos: Map<Seq<char>, UtxoModel>,
    pub pending_movements: Map<Seq<char>, MovementModel>,
    pub external_outpoints: Map<Seq<char>, ()>,
    pub next_indexes: Map<u32, u32>,
    pub range_ends: Map<u32, u32>,
    pub last_used_indexes: Map<u32, u32>,
    pub range_end: u32,
    pub last_used_index: Option<u32>,
    pub status: DescriptorStatus,
    pub initial_scan_complete: bool,
    pub pending_rescan: Option<PendingRescan>,
    pub scan_operation_id: Option<Seq<char>>,
    pub incident: Option<IncidentModel>,
    pub last_success_at: Option<u64>,
    pub generation: Option<u64>,
}

impl View for DescriptorRecord {
    type V = RecordModel;

    open spec fn view(&self) -> RecordModel {
        RecordModel {
            config: self.config@,
            utxos: self.utxos@,
            pending_movements: self.pending_movements@,
            external_outpoints: self.external_outpoints@,
            next_indexes: self.next_indexes@,
            range_ends: self.range_ends@,
            last_used_indexes: self.last_used_indexes@,
            range_end: self.range_end,
            last_used_index: self.last_used_index,
            status: self.status,
            initial_scan_complete: self.initial_scan_complete,
            pending_rescan: self.pending_rescan,
            scan_operation_id: opt_text(self.scan_operation_id),
            incident: opt_incident(self.incident),
            last_success_at: self.last_success_at,
            generation: self.generation,
        }
    }
}

/// An address that was given out.
#[derive(Clone, Debug, PartialEq, Eq)]
pub struct IssuedAddress {
    pub name: String,
    pub branch: u32,
    pub index: u32,
    pub address: String,
    pub scriptpubkey: String,
    pub annotation: Option<String>,
    pub issued_at: u64,
    pub generation: Option<u64>,
}

/// What a [`IssuedAddress`] stands for.
#[verifier::ext_equal]
pub struct IssuedModel {
    pub name: Seq<char>,
    pub branch: u32,
    pub index: u32,
    pub address: Seq<char>,
    pub scriptpubkey: Seq<char>,
    pub annotation: Option<Seq<char>>,
    pub issued_at: u64,
    pub generation: Option<u64>,
}

impl View for IssuedAddress {
    type V = IssuedModel;

    open spec fn view(&self) -> IssuedModel {
        IssuedModel {
            name: self.name@,
            branch: self.branch,
            index: self.index,
            address: self.address@,
            scriptpubkey: self.scriptpubkey@,
            annotation: opt_text(self.annotation),
            issued_at: self.issued_at,
            generation: self.generation,
        }
    }
}

/// A second optional text that holds the same.
pub fn copy_text(text: &Option<String>) -> (r: Option<String>)
    ensures
        opt_text(r) == opt_text(*text),
{
    match text {
        Some(text) => Some(text.clone()),
        None => None,
    }
}

impl Duplicate for DescriptorConfig {
    fn duplicate(&self) -> (r: Self) {
        DescriptorConfig {
            name: self.name.clone(),
            descriptor: self.descriptor.clone(),
            birthheight: self.birthheight,
            lookahead: self.lookahead,
            confirmations: self.confirmations,
        }
    }
}

impl Duplicate for PendingMovement {
    fn duplicate(&self) -> (r: Self) {
        PendingMovement {
            id: self.id.clone(),
            kind: self.kind,
            outpoint: self.outpoint.clone(),
            amount_msat: self.amount_msat,
            blockheight: self.blockheight,
            timestamp: self.timestamp,
            spending_txid: copy_text(&self.spending_txid),
            description: copy_text(&self.description),
        }
    }
}

impl Duplicate for TrackedUtxo {
    fn duplicate(&self) -> (r: Self) {
        TrackedUtxo {
            outpoint: self.outpoint.clone(),
            amount_msat: self.amount_msat,
            derivation_index: self.derivation_index,
            branch: self.branch,
            deposit_height: self.deposit_height,
            spent_by: copy_text(&self.spent_by),
            spent_height: self.spent_height,
            annotation: copy_text(&self.annotation),
        }
    }
}

impl Duplicate for TrackerIncident {
    fn duplicate(&self) -> (r: Self) {
        TrackerIncident {
            code: self.code.clone(),
            operation: self.operation.clone(),
            message: self.message.clone(),
            first_seen: self.first_seen,
            last_seen: self.last_seen,
            retry_count: self.retry_count,
            operator_action_required: self.operator_action_required,
        }
    }
}

impl Duplicate for DescriptorRecord {
    fn duplicate(&self) -> (r: Self) {
        DescriptorRecord {
            config: self.config.duplicate(),
            utxos: self.utxos.duplicate(),
            pending_movements: self.pending_movements.duplicate(),
            external_outpoints: self.external_outpoints.duplicate(),
            next_indexes: self.next_indexes.clone(),
            range_ends: self.range_ends.clone(),
            last_used_indexes: self.last_used_indexes.clone(),
            range_end: self.range_end,
            last_used_index: self.last_used_index,
            status: self.status,
            initial_scan_complete: self.initial_scan_complete,
            pending_rescan: self.pending_rescan,
            scan_operation_id: copy_text(&self.scan_operation_id),
            incident: match &self.incident {
                Some(incident) => Some(incident.duplicate()),
                None => None,
            },
            last_success_at: self.last_success_at,
            generation: self.generation,
        }
    }
}

impl Duplicate for IssuedAddress {
    fn duplicate(&self) -> (r: Self) {
        IssuedAddress {
            name: self.name.clone(),
            branch: self.branch,
            index: self.index,
            address: self.address.clone(),
            scriptpubkey: self.scriptpubkey.clone(),
            annotation: copy_text(&self.annotation),
            issued_at: self.issued_at,
            generation: self.generation,
        }
    }
}

/// The parameters of a registration.
#[derive(Clone, Debug)]
pub struct RegisterRequest {
    pub name: String,
    pub descriptor: String,
    pub birthheight: u32,
    pub lookahead: u32,
    pub confirmations: u32,
}

/// What a [`RegisterRequest`] stands for.
#[verifier::ext_equal]
pub struct RegisterModel {
    pub name: Seq<char>,
    pub descriptor: Seq<char>,
    pub birthheight: u32,
    pub lookahead: u32,
    pub confirmations: u32,
}

impl View for RegisterRequest {
    type V = RegisterModel;

    open spec fn view(&self) -> RegisterModel {
        RegisterModel {
            name: self.name@,
            descriptor: self.descriptor@,
            birthheight: self.birthheight,
            lookahead: self.lookahead,
            confirmations: self.confirmations,
        }
    }
}

/// A request that names a descriptor.
#[derive(Clone, Debug)]
pub struct NameRequest {
    pub name: String,
}

/// The parameters of an update.
#[derive(Clone, Debug)]
pub struct UpdateRequest {
    pub name: String,
    pub lookahead: Option<u32>,
    pub confirmations: Option<u32>,
}

/// The parameters of a reconciliation.
#[derive(Clone, Debug)]
pub struct ReconcileRequest {
    pub name: Option<String>,
}

/// The parameters of a rescan.
#[derive(Clone, Debug)]
pub struct RescanRequest {
    pub name: String,
    pub start_block: Option<u32>,
    pub lookahead: Option<u32>,
}

/// The parameters of a request for a new address.
#[derive(Clone, Debug)]
pub struct NewAddressRequest {
    pub name: String,
    pub branch: u32,
    pub annotation: Option<String>,
    pub minimum_index: Option<u32>,
}

/// The parameters of a listing of addresses.
#[derive(Clone, Debug)]
pub struct ListAddressesRequest {
    pub name: String,
    pub branch: u32,
    pub start: Option<u32>,
    pub limit: u32,
}

/// The parameters of a synchronisation of descriptions.
#[derive(Clone, Debug)]
pub struct SyncDescriptionsRequest {
    pub name: String,
    pub overwrite: bool,
}

/// A match that bwatch reports.
#[derive(Clone, Debug, PartialEq, Eq)]
pub struct BwatchMatch {
    pub owner: String,
    pub watch_type: String,
    pub blockheight: u32,
    pub tx: Option<String>,
    pub index: Option<u32>,
    pub timestamp: Option<u64>,
    pub historical_scan: bool,
}

/// What a [`BwatchMatch`] stands for.
#[verifier::ext_equal]
pub struct MatchModel {
    pub owner: Seq<char>,
    pub watch_type: Seq<char>,
    pub blockheight: u32,
    pub tx: Option<Seq<char>>,
    pub index: Option<u32>,
    pub timestamp: Option<u64>,
    pub historical_scan: bool,
}

impl View for BwatchMatch {
    type V = MatchModel;

    open spec fn view(&self) -> MatchModel {
        MatchModel {
            owner: self.owner@,
            watch_type: self.watch_type@,
            blockheight: self.blockheight,
            tx: opt_text(self.tx),
            index: self.index,
            timestamp: self.timestamp,
            historical_scan: self.historical_scan,
        }
    }
}

/// A block that bwatch has processed or reverted.
#[derive(Clone, Debug)]
pub struct BwatchBlock {
    pub blockheight: u32,
    pub blockhash: String,
}

/// What a historical scan found.
#[derive(Clone, Debug)]
pub struct BwatchScanResult {
    pub start_block: u32,
    pub target_block: u32,
    pub blocks_processed: u64,
    pub matches: Vec<BwatchMatch>,
}

/// What the owner of a watch says of it.
#[derive(Clone, Debug, PartialEq, Eq)]
pub enum WatchOwner {
    Script { name: String, branch: u32, index: u32 },
    Outpoint { name: String, outpoint: String },
}

/// What a [`WatchOwner`] stands for.
#[verifier::ext_equal]
pub enum OwnerModel {
    Script { name: Seq<char>, branch: u32, index: u32 },
    Outpoint { name: Seq<char>, outpoint: Seq<char> },
}

impl View for WatchOwner {
    type V = OwnerModel;

    open spec fn view(&self) -> OwnerModel {
        match *self {
            WatchOwner::Script { name, branch, index } => OwnerModel::Script {
                name: name@,
                branch,
                index,
            },
            WatchOwner::Outpoint { name, outpoint } => OwnerModel::Outpoint {
                name: name@,
                outpoint: outpoint@,
            },
        }
    }
}

/// What the owner of every watch of a descriptor begins with.
pub open spec fn owner_prefix_text(name: Seq<char>) -> Seq<char> {
    OWNER_PREFIX@ + seq!['/'] + name + seq!['/']
}

/// The owner of a script watch.
pub open spec fn script_owner_text(name: Seq<char>, branch: u32, index: u32) -> Seq<char> {
    owner_prefix_text(name) + "spk/"@ + decimal_text(branch as nat) + seq!['/'] + decimal_text(
        index as nat,
    )
}

/// The owner of an outpoint watch.
pub open spec fn outpoint_owner_text(name: Seq<char>, outpoint: Seq<char>) -> Seq<char> {
    owner_prefix_text(name) + "outpoint/"@ + outpoint
}

/// What the owner of a watch says, where it is one of tracker's.
pub open spec fn parsed_owner(owner: Seq<char>) -> Option<OwnerModel> {
    let own = OWNER_PREFIX@ + seq!['/'];
    if !begins_with(owner, own) {
        None
    } else {
        let fields = parts(owner.skip(own.len() as int), '/');
        if fields.len() == 4 && fields[1] == "spk"@ {
            match (
                parsed_number(fields[2], u32::MAX as nat),
                parsed_number(fields[3], u32::MAX as nat),
            ) {
                (Some(branch), Some(index)) => Some(
                    OwnerModel::Script { name: fields[0], branch: branch as u32, index: index as u32 },
                ),
                _ => None,
            }
        } else if fields.len() == 3 && fields[1] == "outpoint"@ {
            Some(OwnerModel::Outpoint { name: fields[0], outpoint: fields[2] })
        } else {
            None
        }
    }
}

/// What the owner of every watch of a descriptor begins with.
pub fn owner_prefix(name: &str) -> (r: String)
    ensures
        r@ == owner_prefix_text(name@),
{
    proof {
        reveal_strlit("/");
    }
    let mut r = around(OWNER_PREFIX, "/", name);
    r.append("/");
    assert(r@ =~= owner_prefix_text(name@));
    r
}

/// The owner of a script watch.
pub fn script_owner(name: &str, branch: u32, index: u32) -> (r: String)
    ensures
        r@ == script_owner_text(name@, branch, index),
{
    proof {
        reveal_strlit("/");
    }
    let mut r = owner_prefix(name);
    r.append("spk/");
    r.append(decimal(branch as u64).as_str());
    r.append("/");
    r.append(decimal(index as u64).as_str());
    assert(r@ =~= script_owner_text(name@, branch, index));
    r
}

/// The owner of an outpoint watch.
pub fn outpoint_owner(name: &str, outpoint: &str) -> (r: String)
    ensures
        r@ == outpoint_owner_text(name@, outpoint@),
{
    let mut r = owner_prefix(name);
    r.append("outpoint/");
    r.append(outpoint);
    r
}

/// What the owner of a watch says, where it is one of tracker's.
pub fn parse_owner(owner: &str) -> (r: Option<WatchOwner>)
    ensures
        opt_model(r) == parsed_owner(owner@),
{
    proof {
        reveal_strlit("/");
    }
    let own = around(OWNER_PREFIX, "/", "");
    proof {
        reveal_strlit("");
        assert(own@ =~= OWNER_PREFIX@ + seq!['/']);
    }
    if !starts_with(owner, own.as_str()) {
        return None;
    }
    let rest = owner.substring_char(own.as_str().unicode_len(), owner.unicode_len());
    assert(rest@ =~= owner@.skip(own@.len() as int));
    let fields = split(rest, '/');
    let ghost texts = fields@.map_values(|s: String| s@);
    assert(texts == parts(rest@, '/'));
    if fields.len() == 4 {
        assert(texts[0] == fields[0]@ && texts[1] == fields[1]@ && texts[2] == fields[2]@
            && texts[3] == fields[3]@);
        if same_text(fields[1].as_str(), "spk") {
            let branch = parse_number(fields[2].as_str(), u32::MAX as u64);
            let index = parse_number(fields[3].as_str(), u32::MAX as u64);
            return match (branch, index) {
                (Some(branch), Some(index)) => Some(
                    WatchOwner::Script {
                        name: fields[0].clone(),
                        branch: branch as u32,
                        index: index as u32,
                    },
                ),
                _ => None,
            };
        }
    } else if fields.len() == 3 {
        assert(texts[0] == fields[0]@ && texts[1] == fields[1]@ && texts[2] == fields[2]@);
        if same_text(fields[1].as_str(), "outpoint") {
            return Some(
                WatchOwner::Outpoint { name: fields[0].clone(), outpoint: fields[2].clone() },
            );
        }
    }
    None
}

/// A character that a descriptor name may hold.
pub open spec fn is_name_char(c: char) -> bool {
    is_digit(c) || ('a' <= c && c <= 'z') || ('A' <= c && c <= 'Z') || c == '.' || c == '_' || c
        == '-'
}

/// What is wrong with a descriptor name, where something is.
pub open spec fn name_fault(name: Seq<char>) -> Option<TrackerError> {
    if name.len() == 0 {
        Some(TrackerError::NameEmpty)
    } else if vstd::utf8::encode_utf8(name).len() > 64 {
        Some(TrackerError::NameTooLong)
    } else if exists|i: int| 0 <= i < name.len() && !is_name_char(#[trigger] name[i]) {
        Some(TrackerError::NameCharacters)
    } else {
        None
    }
}

/// Refuses what cannot name a descriptor.
pub fn validate_name(name: &str) -> (r: Result<(), TrackerError>)
    ensures
        match name_fault(name@) {
            Some(fault) => r == Err::<(), TrackerError>(fault),
            None => r is Ok,
        },
{
    if name.is_empty() {
        return Err(TrackerError::NameEmpty);
    }
    if name.as_bytes().len() > 64 {
        return Err(TrackerError::NameTooLong);
    }
    let chars = chars_of(name);
    let mut i: usize = 0;
    while i < chars.len()
        invariant
            i <= chars.len(),
            chars@ == name@,
            name@.len() > 0,
            vstd::utf8::encode_utf8(name@).len() <= 64,
            forall|j: int| 0 <= j < i ==> is_name_char(#[trigger] name@[j]),
        decreases chars.len() - i,
    {
        let c = chars[i];
        let allowed = (c >= '0' && c <= '9') || (c >= 'a' && c <= 'z') || (c >= 'A' && c <= 'Z')
            || c == '.' || c == '_' || c == '-';
        if !allowed {
            assert(!is_name_char(name@[i as int]));
            return Err(TrackerError::NameCharacters);
        }
        i = i + 1;
    }
    Ok(())
}

/// What is wrong with a lookahead, where something is.
pub open spec fn lookahead_fault(lookahead: u32) -> Option<TrackerError> {
    if lookahead == 0 {
        Some(TrackerError::LookaheadZero)
    } else if lookahead > MAX_LOOKAHEAD {
        Some(TrackerError::LookaheadTooLarge)
    } else {
        None
    }
}

/// Refuses a lookahead out of bounds.
pub fn validate_lookahead(lookahead: u32) -> (r: Result<(), TrackerError>)
    ensures
        match lookahead_fault(lookahead) {
            Some(fault) => r == Err::<(), TrackerError>(fault),
            None => r is Ok,
        },
{
    if lookahead == 0 {
        Err(TrackerError::LookaheadZero)
    } else if lookahead > MAX_LOOKAHEAD {
        Err(TrackerError::LookaheadTooLarge)
    } else {
        Ok(())
    }
}

/// What is wrong with a confirmation depth, where something is.
pub open spec fn confirmations_fault(confirmations: u32) -> Option<TrackerError> {
    if confirmations == 0 {
        Some(TrackerError::ConfirmationsZero)
    } else if confirmations > MAX_CONFIRMATIONS {
        Some(TrackerError::ConfirmationsTooLarge)
    } else {
        None
    }
}

/// Refuses a confirmation depth out of bounds.
pub fn validate_confirmations(confirmations: u32) -> (r: Result<(), TrackerError>)
    ensures
        match confirmations_fault(confirmations) {
            Some(fault) => r == Err::<(), TrackerError>(fault),
            None => r is Ok,
        },
{
    if confirmations == 0 {
        Err(TrackerError::ConfirmationsZero)
    } else if confirmations > MAX_CONFIRMATIONS {
        Err(TrackerError::ConfirmationsTooLarge)
    } else {
        Ok(())
    }
}

/// The lookahead of a registration that names none.
pub fn default_lookahead() -> (r: u32)
    ensures
        r == DEFAULT_LOOKAHEAD,
{
    DEFAULT_LOOKAHEAD
}

/// The confirmation depth of a registration that names none.
pub fn default_confirmations() -> (r: u32)
    ensures
        r == DEFAULT_CONFIRMATIONS,
{
    DEFAULT_CONFIRMATIONS
}

/// The bounds and the defaults of a configuration.
pub proof fn limits_are(lookahead: u32, confirmations: u32)
    ensures
        lookahead_fault(lookahead) is None <==> 1 <= lookahead <= 100_000,
        lookahead_fault(lookahead) == Some(TrackerError::LookaheadZero) <==> lookahead == 0,
        confirmations_fault(confirmations) is None <==> 1 <= confirmations <= 2_016,
        confirmations_fault(confirmations) == Some(TrackerError::ConfirmationsZero)
            <==> confirmations == 0,
        DEFAULT_LOOKAHEAD == 20,
        DEFAULT_CONFIRMATIONS == 1,
        MAX_ANNOTATION_BYTES == 1_024,
{
}

/// A descriptor can be named exactly by one to sixty-four bytes of letters, digits,
/// dots, underscores and hyphens.
pub proof fn names_are_of_allowed_characters(name: Seq<char>)
    ensures
        name_fault(name) is None <==> {
            &&& 0 < name.len()
            &&& vstd::utf8::encode_utf8(name).len() <= 64
            &&& forall|i: int|
                0 <= i < name.len() ==> {
                    let c = #[trigger] name[i];
                    ('0' <= c && c <= '9') || ('a' <= c && c <= 'z') || ('A' <= c && c <= 'Z') || c
                        == '.' || c == '_' || c == '-'
                }
        },
        name_fault(name) == Some(TrackerError::NameEmpty) <==> name.len() == 0,
        name_fault(name) == Some(TrackerError::NameTooLong) <==> 0 < name.len()
            && vstd::utf8::encode_utf8(name).len() > 64,
{
}

/// The owners of the watches of a descriptor are written out: all begin alike, and
/// then name the place of a script or an outpoint.
pub proof fn owners_are_written_out(name: Seq<char>, branch: u32, index: u32, outpoint: Seq<char>)
    ensures
        owner_prefix_text(name) == "plugin/tracker/"@ + name + "/"@,
        script_owner_text(name, branch, index) == "plugin/tracker/"@ + name + "/spk/"@
            + decimal_text(branch as nat) + "/"@ + decimal_text(index as nat),
        outpoint_owner_text(name, outpoint) == "plugin/tracker/"@ + name + "/outpoint/"@ + outpoint,
        begins_with(script_owner_text(name, branch, index), owner_prefix_text(name)),
        begins_with(outpoint_owner_text(name, outpoint), owner_prefix_text(name)),
{
    reveal_strlit("plugin/tracker/");
    reveal_strlit("plugin/tracker");
    reveal_strlit("/");
    reveal_strlit("/spk/");
    reveal_strlit("spk/");
    reveal_strlit("/outpoint/");
    reveal_strlit("outpoint/");
    assert("plugin/tracker/"@ =~= OWNER_PREFIX@ + seq!['/']);
    assert("/"@ =~= seq!['/']);
    assert("/spk/"@ =~= seq!['/'] + "spk/"@);
    assert("/outpoint/"@ =~= seq!['/'] + "outpoint/"@);
    assert(owner_prefix_text(name) =~= "plugin/tracker/"@ + name + "/"@);
    assert(script_owner_text(name, branch, index) =~= "plugin/tracker/"@ + name + "/spk/"@
        + decimal_text(branch as nat) + "/"@ + decimal_text(index as nat));
    assert(outpoint_owner_text(name, outpoint) =~= "plugin/tracker/"@ + name + "/outpoint/"@
        + outpoint);
    let prefix = owner_prefix_text(name);
    assert(script_owner_text(name, branch, index).take(prefix.len() as int) =~= prefix);
    assert(outpoint_owner_text(name, outpoint).take(prefix.len() as int) =~= prefix);
}

/// What does not begin as the watches of tracker do is the watch of another.
pub proof fn other_owners_are_foreign(owner: Seq<char>)
    requires
        !begins_with(owner, "plugin/tracker/"@),
    ensures
        parsed_owner(owner) is None,
{
    reveal_strlit("plugin/tracker/");
    reveal_strlit("plugin/tracker");
    assert("plugin/tracker/"@ =~= OWNER_PREFIX@ + seq!['/']);
}

} // verus!
