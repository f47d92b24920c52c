//! How tracker shows what it keeps.

use crate::cln::{
    text_list, text_list_json, BwatchError, BwatchRescan, BwatchStatus, FaultModel, RescanModel,
    StatusModel,
};
use crate::frontier::index_at;
use crate::json::{
    named_field_at, no_field_of_a_name, no_fields, number_or_null, opt_model, opt_text,
    text_or_null, Fields, Json, JsonModel,
};
use crate::model::{
    DescriptorRecord, DescriptorStatus, IncidentModel, IssuedAddress, IssuedModel, MovementKind,
    MovementModel, PendingMovement, PendingRescan, RecordModel, TrackedUtxo, TrackerIncident,
    UtxoModel,
};
use crate::ordered::{
    models, ordered_keys, ranked, ranked_of, sorted_keys, sorted_keys_of, sorted_values, TextMap,
};
use crate::text::{decimal, decimal_is_digits, decimal_text};
use std::collections::BTreeMap;
use vstd::prelude::*;
use vstd::string::*;

verus! {

/// What can be shown.
pub trait Shown: View + Sized {
    /// How a value is shown.
    spec fn shown(v: Self::V) -> JsonModel;

    /// Shows a value.
    fn show(&self) -> (r: Json)
        ensures
            r@ == Self::shown(self@),
    ;
}

/// How a row of values is shown.
pub open spec fn row_shown<T: Shown>(items: Seq<T::V>) -> JsonModel {
    JsonModel::List(items.map_values(|v: T::V| T::shown(v)))
}

/// Shows a list of values.
pub fn show_list<T: Shown>(items: &Vec<T>) -> (r: Json)
    ensures
        r@ == row_shown::<T>(models(items@)),
{
    let mut shown: Vec<Json> = Vec::new();
    let mut i: usize = 0;
    while i < items.len()
        invariant
            i <= items.len(),
            shown.len() == i,
            forall|j: int| 0 <= j < i ==> #[trigger] shown[j]@ == T::shown(items[j]@),
        decreases items.len() - i,
    {
        shown.push(items[i].show());
        i = i + 1;
    }
    let r = Json::of_list(shown);
    assert(models(shown@) =~= models(items@).map_values(|v: T::V| T::shown(v)));
    r
}

/// Shows the values of a map in the order of their keys.
pub fn show_values<T: Shown>(m: &TextMap<T>) -> (r: Json)
    ensures
        r@ == row_shown::<T>(sorted_values(m@)),
{
    let ghost keys = sorted_keys(m@.dom());
    let n = m.len();
    let mut shown: Vec<Json> = Vec::new();
    let mut i: usize = 0;
    while i < n
        invariant
            i <= n,
            n == keys.len(),
            n == m@.dom().len(),
            keys == sorted_keys(m@.dom()),
            shown.len() == i,
            forall|j: int| 0 <= j < i ==> #[trigger] shown[j]@ == T::shown(m@[keys[j]]),
        decreases n - i,
    {
        let (_, value) = m.at(i);
        shown.push(value.show());
        i = i + 1;
    }
    let r = Json::of_list(shown);
    assert(models(shown@) =~= sorted_values(m@).map_values(|v: T::V| T::shown(v)));
    r
}

/// How an optional value is shown.
pub open spec fn shown_or_null<T: Shown>(value: Option<T::V>) -> JsonModel {
    match value {
        Some(v) => T::shown(v),
        None => JsonModel::Null,
    }
}

/// Shows an optional value.
pub fn show_optional<T: Shown>(value: &Option<T>) -> (r: Json)
    ensures
        r@ == shown_or_null::<T>(opt_model(*value)),
{
    match value {
        Some(v) => v.show(),
        None => Json::Null,
    }
}

/// An index as a number.
pub open spec fn wide(n: Option<u32>) -> Option<u64> {
    match n {
        Some(n) => Some(n as u64),
        None => None,
    }
}

/// An index as a number.
fn widen(n: Option<u32>) -> (r: Option<u64>)
    ensures
        r == wide(n),
{
    match n {
        Some(n) => Some(n as u64),
        None => None,
    }
}

/// A flag, or null.
pub open spec fn flag_or_null(flag: Option<bool>) -> JsonModel {
    match flag {
        Some(b) => JsonModel::Bool(b),
        None => JsonModel::Null,
    }
}

/// Fields with a text added where there is one.
pub open spec fn with_text(
    fields: Seq<(Seq<char>, JsonModel)>,
    name: Seq<char>,
    text: Option<Seq<char>>,
) -> Seq<(Seq<char>, JsonModel)> {
    match text {
        Some(text) => fields.push((name, JsonModel::Text(text))),
        None => fields,
    }
}

/// Adds a text to fields where there is one.
fn add_text(fields: &mut Fields, name: &str, text: &Option<String>)
    ensures
        final(fields)@ == with_text(old(fields)@, name@, opt_text(*text)),
{
    match text {
        Some(text) => {
            fields.put_text(name, text.as_str());
        },
        None => {},
    }
}

/// Fields with a number added where there is one.
pub open spec fn with_number(
    fields: Seq<(Seq<char>, JsonModel)>,
    name: Seq<char>,
    number: Option<u32>,
) -> Seq<(Seq<char>, JsonModel)> {
    match number {
        Some(number) => fields.push((name, JsonModel::Number(number as u64))),
        None => fields,
    }
}

/// Adds a number to fields where there is one.
fn add_number(fields: &mut Fields, name: &str, number: Option<u32>)
    ensures
        final(fields)@ == with_number(old(fields)@, name@, number),
{
    match number {
        Some(number) => {
            fields.put_number(name, number as u64);
        },
        None => {},
    }
}

/// The name of a status.
pub open spec fn status_text(status: DescriptorStatus) -> Seq<char> {
    match status {
        DescriptorStatus::Syncing => "syncing"@,
        DescriptorStatus::Active => "active"@,
        DescriptorStatus::Deleting => "deleting"@,
    }
}

/// The name of a status.
pub fn status_name(status: DescriptorStatus) -> (r: &'static str)
    ensures
        r@ == status_text(status),
{
    match status {
        DescriptorStatus::Syncing => "syncing",
        DescriptorStatus::Active => "active",
        DescriptorStatus::Deleting => "deleting",
    }
}

/// The name of a kind of movement.
pub open spec fn kind_text(kind: MovementKind) -> Seq<char> {
    match kind {
        MovementKind::Deposit => "deposit"@,
        MovementKind::Spend => "spend"@,
        MovementKind::ExternalDeposit => "external_deposit"@,
        MovementKind::ExternalDescription => "external_description"@,
    }
}

/// The name of a kind of movement.
pub fn kind_name(kind: MovementKind) -> (r: &'static str)
    ensures
        r@ == kind_text(kind),
{
    match kind {
        MovementKind::Deposit => "deposit",
        MovementKind::Spend => "spend",
        MovementKind::ExternalDeposit => "external_deposit",
        MovementKind::ExternalDescription => "external_description",
    }
}

/// How indexes by branch are shown.
pub open spec fn indexes_shown(m: Map<u32, u32>) -> JsonModel {
    JsonModel::Object(
        ranked::<u32>(m.dom()).map_values(
            |k: u32| (decimal_text(k as nat), JsonModel::Number(m[k] as u64)),
        ),
    )
}

/// Shows indexes by branch.
pub fn show_indexes(m: &BTreeMap<u32, u32>) -> (r: Json)
    ensures
        r@ == indexes_shown(m@),
{
    let keys = ordered_keys(m);
    let ghost shown = ranked::<u32>(m@.dom()).map_values(
        |k: u32| (decimal_text(k as nat), JsonModel::Number(m@[k] as u64)),
    );
    let mut fields = Fields::new();
    let mut i: usize = 0;
    while i < keys.len()
        invariant
            i <= keys.len(),
            keys@ == ranked::<u32>(m@.dom()),
            keys@.to_set() == m@.dom(),
            shown == keys@.map_values(
                |k: u32| (decimal_text(k as nat), JsonModel::Number(m@[k] as u64)),
            ),
            fields@ == shown.take(i as int),
        decreases keys.len() - i,
    {
        let key = keys[i];
        assert(keys@.contains(key));
        assert(keys@.to_set().contains(key));
        match index_at(m, key) {
            Some(index) => {
                fields.put_number(decimal(key as u64).as_str(), index as u64);
            },
            None => {},
        }
        assert(shown.take(i + 1) =~= shown.take(i as int).push(shown[i as int]));
        i = i + 1;
    }
    assert(shown.take(i as int) =~= shown);
    fields.done()
}

impl Shown for TrackedUtxo {
    open spec fn shown(v: UtxoModel) -> JsonModel {
        JsonModel::Object(
            with_text(
                with_number(
                    with_text(
                        no_fields()
                            .push(("outpoint"@, JsonModel::Text(v.outpoint)))
                            .push(("amount_msat"@, JsonModel::Number(v.amount_msat)))
                            .push(
                                ("derivation_index"@, JsonModel::Number(v.derivation_index as u64)),
                            )
                            .push(("branch"@, JsonModel::Number(v.branch as u64)))
                            .push(("deposit_height"@, JsonModel::Number(v.deposit_height as u64))),
                        "spent_by"@,
                        v.spent_by,
                    ),
                    "spent_height"@,
                    v.spent_height,
                ),
                "annotation"@,
                v.annotation,
            ),
        )
    }

    fn show(&self) -> (r: Json) {
        let mut fields = Fields::new();
        fields.put_text("outpoint", self.outpoint.as_str());
        fields.put_number("amount_msat", self.amount_msat);
        fields.put_number("derivation_index", self.derivation_index as u64);
        fields.put_number("branch", self.branch as u64);
        fields.put_number("deposit_height", self.deposit_height as u64);
        add_text(&mut fields, "spent_by", &self.spent_by);
        add_number(&mut fields, "spent_height", self.spent_height);
        add_text(&mut fields, "annotation", &self.annotation);
        fields.done()
    }
}

impl Shown for PendingMovement {
    open spec fn shown(v: MovementModel) -> JsonModel {
        JsonModel::Object(
            with_text(
                with_text(
                    no_fields()
                        .push(("id"@, JsonModel::Text(v.id)))
                        .push(("kind"@, JsonModel::Text(kind_text(v.kind))))
                        .push(("outpoint"@, JsonModel::Text(v.outpoint)))
                        .push(("amount_msat"@, JsonModel::Number(v.amount_msat)))
                        .push(("blockheight"@, JsonModel::Number(v.blockheight as u64)))
                        .push(("timestamp"@, JsonModel::Number(v.timestamp))),
                    "spending_txid"@,
                    v.spending_txid,
                ),
                "description"@,
                v.description,
            ),
        )
    }

    fn show(&self) -> (r: Json) {
        let mut fields = Fields::new();
        fields.put_text("id", self.id.as_str());
        fields.put_text("kind", kind_name(self.kind));
        fields.put_text("outpoint", self.outpoint.as_str());
        fields.put_number("amount_msat", self.amount_msat);
        fields.put_number("blockheight", self.blockheight as u64);
        fields.put_number("timestamp", self.timestamp);
        add_text(&mut fields, "spending_txid", &self.spending_txid);
        add_text(&mut fields, "description", &self.description);
        fields.done()
    }
}

impl Shown for TrackerIncident {
    open spec fn shown(v: IncidentModel) -> JsonModel {
        JsonModel::Object(
            no_fields()
                .push(("code"@, JsonModel::Text(v.code)))
                .push(("operation"@, JsonModel::Text(v.operation)))
                .push(("message"@, JsonModel::Text(v.message)))
                .push(("first_seen"@, JsonModel::Number(v.first_seen)))
                .push(("last_seen"@, JsonModel::Number(v.last_seen)))
                .push(("retry_count"@, JsonModel::Number(v.retry_count)))
                .push(("operator_action_required"@, JsonModel::Bool(v.operator_action_required))),
        )
    }

    fn show(&self) -> (r: Json) {
        let mut fields = Fields::new();
        fields.put_text("code", self.code.as_str());
        fields.put_text("operation", self.operation.as_str());
        fields.put_text("message", self.message.as_str());
        fields.put_number("first_seen", self.first_seen);
        fields.put_number("last_seen", self.last_seen);
        fields.put_number("retry_count", self.retry_count);
        fields.put("operator_action_required", Json::Bool(self.operator_action_required));
        fields.done()
    }
}

impl Shown for IssuedAddress {
    open spec fn shown(v: IssuedModel) -> JsonModel {
        JsonModel::Object(
            with_text(
                no_fields()
                    .push(("name"@, JsonModel::Text(v.name)))
                    .push(("branch"@, JsonModel::Number(v.branch as u64)))
                    .push(("index"@, JsonModel::Number(v.index as u64)))
                    .push(("address"@, JsonModel::Text(v.address)))
                    .push(("scriptpubkey"@, JsonModel::Text(v.scriptpubkey))),
                "annotation"@,
                v.annotation,
            ).push(("issued_at"@, JsonModel::Number(v.issued_at))),
        )
    }

    fn show(&self) -> (r: Json) {
        let mut fields = Fields::new();
        fields.put_text("name", self.name.as_str());
        fields.put_number("branch", self.branch as u64);
        fields.put_number("index", self.index as u64);
        fields.put_text("address", self.address.as_str());
        fields.put_text("scriptpubkey", self.scriptpubkey.as_str());
        add_text(&mut fields, "annotation", &self.annotation);
        fields.put_number("issued_at", self.issued_at);
        fields.done()
    }
}

impl Shown for BwatchError {
    open spec fn shown(v: FaultModel) -> JsonModel {
        JsonModel::Object(
            no_fields()
                .push(("height"@, JsonModel::Number(v.height as u64)))
                .push(("target_height"@, number_or_null(wide(v.target_height))))
                .push(("message"@, JsonModel::Text(v.message))),
        )
    }

    fn show(&self) -> (r: Json) {
        let mut fields = Fields::new();
        fields.put_number("height", self.height as u64);
        fields.put("target_height", Json::of_number(widen(self.target_height)));
        fields.put_text("message", self.message.as_str());
        fields.done()
    }
}

impl Shown for BwatchRescan {
    open spec fn shown(v: RescanModel) -> JsonModel {
        JsonModel::Object(
            no_fields()
                .push(("watch_type"@, JsonModel::Text(v.watch_type)))
                .push(("owners"@, text_list(v.owners)))
                .push(("start_height"@, JsonModel::Number(v.start_height as u64)))
                .push(("current_height"@, JsonModel::Number(v.current_height as u64)))
                .push(("target_height"@, JsonModel::Number(v.target_height as u64)))
                .push(("blocks_processed"@, JsonModel::Number(v.blocks_processed)))
                .push(("blocks_total"@, JsonModel::Number(v.blocks_total)))
                .push(("progress_percent"@, JsonModel::Number(v.progress_percent)))
                .push(("script_matches_found"@, JsonModel::Number(v.script_matches_found)))
                .push(("outpoint_matches_found"@, JsonModel::Number(v.outpoint_matches_found)))
                .push(("outpoints_followed"@, JsonModel::Number(v.outpoints_followed))),
        )
    }

    fn show(&self) -> (r: Json) {
        let mut fields = Fields::new();
        fields.put_text("watch_type", self.watch_type.as_str());
        fields.put("owners", text_list_json(&self.owners));
        fields.put_number("start_height", self.start_height as u64);
        fields.put_number("current_height", self.current_height as u64);
        fields.put_number("target_height", self.target_height as u64);
        fields.put_number("blocks_processed", self.blocks_processed);
        fields.put_number("blocks_total", self.blocks_total);
        fields.put_number("progress_percent", self.progress_percent);
        fields.put_number("script_matches_found", self.script_matches_found);
        fields.put_number("outpoint_matches_found", self.outpoint_matches_found);
        fields.put_number("outpoints_followed", self.outpoints_followed);
        fields.done()
    }
}

impl Shown for BwatchStatus {
    open spec fn shown(v: StatusModel) -> JsonModel {
        JsonModel::Object(
            no_fields()
                .push(("enabled"@, JsonModel::Bool(v.enabled)))
                .push(("current_height"@, JsonModel::Number(v.current_height as u64)))
                .push(("backend_height"@, number_or_null(wide(v.backend_height))))
                .push(("lag"@, number_or_null(wide(v.lag))))
                .push(("caught_up"@, flag_or_null(v.caught_up)))
                .push(("last_poll_error"@, shown_or_null::<BwatchError>(v.last_poll_error)))
                .push(("last_rescan_error"@, shown_or_null::<BwatchError>(v.last_rescan_error)))
                .push(("active_rescans"@, row_shown::<BwatchRescan>(v.active_rescans))),
        )
    }

    fn show(&self) -> (r: Json) {
        let mut fields = Fields::new();
        fields.put("enabled", Json::Bool(self.enabled));
        fields.put_number("current_height", self.current_height as u64);
        fields.put("backend_height", Json::of_number(widen(self.backend_height)));
        fields.put("lag", Json::of_number(widen(self.lag)));
        fields.put(
            "caught_up",
            match self.caught_up {
                Some(b) => Json::Bool(b),
                None => Json::Null,
            },
        );
        fields.put("last_poll_error", show_optional(&self.last_poll_error));
        fields.put("last_rescan_error", show_optional(&self.last_rescan_error));
        fields.put("active_rescans", show_list(&self.active_rescans));
        fields.done()
    }
}

/// How an unfinished rescan is shown.
pub open spec fn pending_rescan_shown(rescan: Option<PendingRescan>) -> JsonModel {
    match rescan {
        Some(rescan) => JsonModel::Object(
            no_fields()
                .push(("start_block"@, JsonModel::Number(rescan.start_block as u64))),
        ),
        None => JsonModel::Null,
    }
}

/// Shows an unfinished rescan.
fn show_pending_rescan(rescan: &Option<PendingRescan>) -> (r: Json)
    ensures
        r@ == pending_rescan_shown(*rescan),
{
    match rescan {
        Some(rescan) => {
            let mut fields = Fields::new();
            fields.put_number("start_block", rescan.start_block as u64);
            fields.done()
        },
        None => Json::Null,
    }
}

/// Shows the keys of a map in order.
fn show_keys(m: &TextMap<()>) -> (r: Json)
    ensures
        r@ == text_list(sorted_keys(m@.dom())),
{
    let ghost keys = sorted_keys(m@.dom());
    let n = m.len();
    let mut texts: Vec<String> = Vec::new();
    let mut i: usize = 0;
    while i < n
        invariant
            i <= n,
            n == keys.len(),
            n == m@.dom().len(),
            keys == sorted_keys(m@.dom()),
            texts.len() == i,
            forall|j: int| 0 <= j < i ==> #[trigger] texts[j]@ == keys[j],
        decreases n - i,
    {
        let (key, _) = m.at(i);
        texts.push(key.clone());
        i = i + 1;
    }
    assert(models(texts@) =~= keys);
    text_list_json(&texts)
}

/// The fields under which a record with a number of branches is shown.
pub open spec fn record_fields(record: RecordModel, branches: nat) -> Seq<(Seq<char>, JsonModel)> {
    no_fields()
        .push(("name"@, JsonModel::Text(record.config.name)))
        .push(("descriptor"@, JsonModel::Text(record.config.descriptor)))
        .push(("birthheight"@, JsonModel::Number(record.config.birthheight as u64)))
        .push(("lookahead"@, JsonModel::Number(record.config.lookahead as u64)))
        .push(("confirmations"@, JsonModel::Number(record.config.confirmations as u64)))
        .push(("range_end"@, JsonModel::Number(record.range_end as u64)))
        .push(("last_used_index"@, number_or_null(wide(record.last_used_index))))
        .push(("status"@, JsonModel::Text(status_text(record.status))))
        .push(("initial_scan_complete"@, JsonModel::Bool(record.initial_scan_complete)))
        .push(("pending_rescan"@, pending_rescan_shown(record.pending_rescan)))
        .push(("scan_operation_id"@, text_or_null(record.scan_operation_id)))
        .push(("incident"@, shown_or_null::<TrackerIncident>(record.incident)))
        .push(("last_success_at"@, number_or_null(record.last_success_at)))
        .push(("branches"@, JsonModel::Number(branches as u64)))
        .push(("next_indexes"@, indexes_shown(record.next_indexes)))
        .push(("range_ends"@, indexes_shown(record.range_ends)))
        .push(("last_used_indexes"@, indexes_shown(record.last_used_indexes)))
        .push(("tracked_utxos"@, row_shown::<TrackedUtxo>(sorted_values(record.utxos))))
        .push(("external_outpoints"@, text_list(sorted_keys(record.external_outpoints.dom()))))
        .push(
            (
                "pending_movements"@,
                row_shown::<PendingMovement>(sorted_values(record.pending_movements)),
            ),
        )
}

/// The fields under which a record is shown.
pub fn show_record_fields(record: &DescriptorRecord, branches: usize) -> (fields: Fields)
    ensures
        fields@ == record_fields(record@, branches as nat),
{
    let mut fields = Fields::new();
    fields.put_text("name", record.config.name.as_str());
    fields.put_text("descriptor", record.config.descriptor.as_str());
    fields.put_number("birthheight", record.config.birthheight as u64);
    fields.put_number("lookahead", record.config.lookahead as u64);
    fields.put_number("confirmations", record.config.confirmations as u64);
    fields.put_number("range_end", record.range_end as u64);
    fields.put("last_used_index", Json::of_number(widen(record.last_used_index)));
    fields.put_text("status", status_name(record.status));
    fields.put("initial_scan_complete", Json::Bool(record.initial_scan_complete));
    fields.put("pending_rescan", show_pending_rescan(&record.pending_rescan));
    fields.put("scan_operation_id", Json::of_optional_text(&record.scan_operation_id));
    fields.put("incident", show_optional(&record.incident));
    fields.put("last_success_at", Json::of_number(record.last_success_at));
    fields.put_number("branches", branches as u64);
    fields.put("next_indexes", show_indexes(&record.next_indexes));
    fields.put("range_ends", show_indexes(&record.range_ends));
    fields.put("last_used_indexes", show_indexes(&record.last_used_indexes));
    fields.put("tracked_utxos", show_values(&record.utxos));
    fields.put("external_outpoints", show_keys(&record.external_outpoints));
    fields.put("pending_movements", show_values(&record.pending_movements));
    fields
}

/// Shows a record with a number of branches.
pub fn record_view(record: &DescriptorRecord, branches: usize) -> (r: Json)
    ensures
        r@ == JsonModel::Object(record_fields(record@, branches as nat)),
{
    show_record_fields(record, branches).done()
}

/// The names under which a record is shown differ.
pub proof fn record_names_differ()
    ensures
        forall|i: int, j: int, record: RecordModel, branches: nat|
            0 <= i < j < 20 ==> (#[trigger] record_fields(record, branches)[i]).0 != (
            #[trigger] record_fields(record, branches)[j]).0,
{
    reveal_strlit("name");
    reveal_strlit("descriptor");
    reveal_strlit("birthheight");
    reveal_strlit("lookahead");
    reveal_strlit("confirmations");
    reveal_strlit("range_end");
    reveal_strlit("last_used_index");
    reveal_strlit("status");
    reveal_strlit("initial_scan_complete");
    reveal_strlit("pending_rescan");
    reveal_strlit("scan_operation_id");
    reveal_strlit("incident");
    reveal_strlit("last_success_at");
    reveal_strlit("branches");
    reveal_strlit("next_indexes");
    reveal_strlit("range_ends");
    reveal_strlit("last_used_indexes");
    reveal_strlit("tracked_utxos");
    reveal_strlit("external_outpoints");
    reveal_strlit("pending_movements");
    assert("name"@.len() == 4);
    assert("descriptor"@.len() == 10);
    assert("birthheight"@.len() == 11);
    assert("lookahead"@.len() == 9);
    assert("confirmations"@.len() == 13);
    assert("range_end"@.len() == 9);
    assert("last_used_index"@.len() == 15);
    assert("status"@.len() == 6);
    assert("initial_scan_complete"@.len() == 21);
    assert("pending_rescan"@.len() == 14);
    assert("scan_operation_id"@.len() == 17);
    assert("incident"@.len() == 8);
    assert("last_success_at"@.len() == 15);
    assert("branches"@.len() == 8);
    assert("next_indexes"@.len() == 12);
    assert("range_ends"@.len() == 10);
    assert("last_used_indexes"@.len() == 17);
    assert("tracked_utxos"@.len() == 13);
    assert("external_outpoints"@.len() == 18);
    assert("pending_movements"@.len() == 17);
    assert("range_ends"@[0] == 'r');
    assert("descriptor"@[0] == 'd');
    assert("range_end"@[0] == 'r');
    assert("lookahead"@[0] == 'l');
    assert("tracked_utxos"@[0] == 't');
    assert("confirmations"@[0] == 'c');
    assert("last_success_at"@[5] == 's');
    assert("last_used_index"@[5] == 'u');
    assert("last_used_indexes"@[0] == 'l');
    assert("scan_operation_id"@[0] == 's');
    assert("pending_movements"@[0] == 'p');
    assert("branches"@[0] == 'b');
    assert("incident"@[0] == 'i');
}

/// A field of a shown record is found under its name.
pub proof fn record_field_at(record: RecordModel, branches: nat, i: int)
    requires
        0 <= i < 20,
    ensures
        JsonModel::Object(record_fields(record, branches)).field(
            record_fields(record, branches)[i].0,
        ) == Some(record_fields(record, branches)[i].1),
{
    record_names_differ();
    named_field_at(record_fields(record, branches), i);
}

/// A record is shown with the configuration that it has.
pub proof fn shown_record_has_its_configuration(record: RecordModel, branches: nat)
    ensures
        ({
            let shown = JsonModel::Object(record_fields(record, branches));
            &&& shown.text_field("name"@) == Some(record.config.name)
            &&& shown.text_field("descriptor"@) == Some(record.config.descriptor)
            &&& shown.number_field("birthheight"@) == Some(record.config.birthheight as u64)
            &&& shown.number_field("lookahead"@) == Some(record.config.lookahead as u64)
            &&& shown.number_field("confirmations"@) == Some(record.config.confirmations as u64)
        }),
{
    record_field_at(record, branches, 0);
    record_field_at(record, branches, 1);
    record_field_at(record, branches, 2);
    record_field_at(record, branches, 3);
    record_field_at(record, branches, 4);
}

/// A record is shown with how far it has come: what it watches, whether its first
/// scan is complete, which rescan it waits for, and what its last success was.
pub proof fn shown_record_has_its_progress(record: RecordModel, branches: nat)
    requires
        branches <= u64::MAX,
    ensures
        ({
            let shown = JsonModel::Object(record_fields(record, branches));
            &&& shown.number_field("range_end"@) == Some(record.range_end as u64)
            &&& record.last_used_index matches Some(index) ==> shown.number_field(
                "last_used_index"@,
            ) == Some(index as u64)
            &&& record.last_used_index is None ==> shown.field("last_used_index"@) == Some(
                JsonModel::Null,
            )
            &&& record.status is Active ==> shown.text_field("status"@) == Some("active"@)
            &&& record.status is Syncing ==> shown.text_field("status"@) == Some("syncing"@)
            &&& record.status is Deleting ==> shown.text_field("status"@) == Some("deleting"@)
            &&& shown.field("initial_scan_complete"@) == Some(
                JsonModel::Bool(record.initial_scan_complete),
            )
            &&& record.scan_operation_id matches Some(id) ==> shown.text_field(
                "scan_operation_id"@,
            ) == Some(id)
            &&& record.scan_operation_id is None ==> shown.field("scan_operation_id"@) == Some(
                JsonModel::Null,
            )
            &&& record.last_success_at matches Some(at) ==> shown.number_field("last_success_at"@)
                == Some(at)
            &&& record.last_success_at is None ==> shown.field("last_success_at"@) == Some(
                JsonModel::Null,
            )
            &&& shown.number_field("branches"@) == Some(branches as u64)
        }),
{
    record_field_at(record, branches, 5);
    record_field_at(record, branches, 6);
    record_field_at(record, branches, 7);
    record_field_at(record, branches, 8);
    record_field_at(record, branches, 10);
    record_field_at(record, branches, 12);
    record_field_at(record, branches, 13);
}

/// A record is shown with its unfinished rescan and its incident, and with null
/// where it has none.
pub proof fn shown_record_has_its_troubles(record: RecordModel, branches: nat)
    ensures
        ({
            let shown = JsonModel::Object(record_fields(record, branches));
            &&& record.pending_rescan matches Some(rescan) ==> shown.field(
                "pending_rescan"@,
            )->Some_0.number_field("start_block"@) == Some(rescan.start_block as u64)
            &&& record.pending_rescan is None ==> shown.field("pending_rescan"@) == Some(
                JsonModel::Null,
            )
            &&& record.incident matches Some(incident) ==> shown.field("incident"@) == Some(
                TrackerIncident::shown(incident),
            )
            &&& record.incident is None ==> shown.field("incident"@) == Some(JsonModel::Null)
        }),
{
    record_field_at(record, branches, 9);
    record_field_at(record, branches, 11);
    if record.pending_rescan is Some {
        named_field_at(pending_rescan_shown(record.pending_rescan)->Object_0, 0);
    }
}

/// A record is shown with every output, every outpoint of others and every waiting
/// movement that it has, once each and with nothing else.
pub proof fn shown_record_has_its_findings(record: RecordModel, branches: nat)
    requires
        record.utxos.dom().finite(),
        record.pending_movements.dom().finite(),
        record.external_outpoints.dom().finite(),
    ensures
        ({
            let shown = JsonModel::Object(record_fields(record, branches));
            let outputs = shown.list_field("tracked_utxos"@);
            let movements = shown.list_field("pending_movements"@);
            let foreign = shown.list_field("external_outpoints"@);
            &&& outputs is Some && outputs->Some_0.len() == record.utxos.dom().len()
            &&& movements is Some && movements->Some_0.len() == record.pending_movements.dom().len()
            &&& foreign is Some && foreign->Some_0.len() == record.external_outpoints.dom().len()
            &&& forall|key: Seq<char>| #[trigger]
                record.utxos.contains_key(key) ==> outputs->Some_0.contains(
                    TrackedUtxo::shown(record.utxos[key]),
                )
            &&& forall|key: Seq<char>| #[trigger]
                record.pending_movements.contains_key(key) ==> movements->Some_0.contains(
                    PendingMovement::shown(record.pending_movements[key]),
                )
            &&& forall|key: Seq<char>| #[trigger]
                record.external_outpoints.contains_key(key) ==> foreign->Some_0.contains(
                    JsonModel::Text(key),
                )
        }),
{
    record_field_at(record, branches, 17);
    record_field_at(record, branches, 18);
    record_field_at(record, branches, 19);
    let shown = JsonModel::Object(record_fields(record, branches));
    let outputs = shown.list_field("tracked_utxos"@)->Some_0;
    let movements = shown.list_field("pending_movements"@)->Some_0;
    let foreign = shown.list_field("external_outpoints"@)->Some_0;
    sorted_keys_of(record.utxos.dom());
    sorted_keys_of(record.pending_movements.dom());
    sorted_keys_of(record.external_outpoints.dom());
    assert forall|key: Seq<char>| #[trigger] record.utxos.contains_key(key) implies outputs.contains(
        TrackedUtxo::shown(record.utxos[key]),
    ) by {
        let keys = sorted_keys(record.utxos.dom());
        assert(keys.to_set().contains(key));
        let i = choose|i: int| 0 <= i < keys.len() && keys[i] == key;
        assert(outputs[i] == TrackedUtxo::shown(record.utxos[key]));
    }
    assert forall|key: Seq<char>| #[trigger]
        record.pending_movements.contains_key(key) implies movements.contains(
        PendingMovement::shown(record.pending_movements[key]),
    ) by {
        let keys = sorted_keys(record.pending_movements.dom());
        assert(keys.to_set().contains(key));
        let i = choose|i: int| 0 <= i < keys.len() && keys[i] == key;
        assert(movements[i] == PendingMovement::shown(record.pending_movements[key]));
    }
    assert forall|key: Seq<char>| #[trigger]
        record.external_outpoints.contains_key(key) implies foreign.contains(
        JsonModel::Text(key),
    ) by {
        let keys = sorted_keys(record.external_outpoints.dom());
        assert(keys.to_set().contains(key));
        let i = choose|i: int| 0 <= i < keys.len() && keys[i] == key;
        assert(foreign[i] == JsonModel::Text(key));
    }
}

/// Each branch is shown by its number in decimal, with its index.
pub proof fn shown_indexes_are_by_branch(m: Map<u32, u32>, branch: u32)
    requires
        m.dom().finite(),
        m.contains_key(branch),
    ensures
        indexes_shown(m).number_field(decimal_text(branch as nat)) == Some(m[branch] as u64),
{
    let keys = ranked::<u32>(m.dom());
    ranked_of::<u32>(m.dom());
    assert(keys.to_set().contains(branch));
    let i = choose|i: int| 0 <= i < keys.len() && keys[i] == branch;
    let fields = indexes_shown(m)->Object_0;
    assert forall|j: int| 0 <= j < i implies (#[trigger] fields[j]).0 != fields[i].0 by {
        if fields[j].0 == fields[i].0 {
            decimal_is_digits(keys[j] as nat);
            decimal_is_digits(keys[i] as nat);
            assert(keys[j] != keys[i]);
        }
    }
    named_field_at(fields, i);
}

/// A record shows its indexes, its watched ends and its last uses by branch.
pub proof fn shown_record_has_its_indexes(record: RecordModel, branches: nat, branch: u32)
    requires
        record.next_indexes.dom().finite(),
        record.range_ends.dom().finite(),
        record.last_used_indexes.dom().finite(),
    ensures
        ({
            let shown = JsonModel::Object(record_fields(record, branches));
            let place = decimal_text(branch as nat);
            &&& record.next_indexes.contains_key(branch) ==> shown.field(
                "next_indexes"@,
            )->Some_0.number_field(place) == Some(record.next_indexes[branch] as u64)
            &&& record.range_ends.contains_key(branch) ==> shown.field(
                "range_ends"@,
            )->Some_0.number_field(place) == Some(record.range_ends[branch] as u64)
            &&& record.last_used_indexes.contains_key(branch) ==> shown.field(
                "last_used_indexes"@,
            )->Some_0.number_field(place) == Some(record.last_used_indexes[branch] as u64)
        }),
{
    record_field_at(record, branches, 14);
    record_field_at(record, branches, 15);
    record_field_at(record, branches, 16);
    if record.next_indexes.contains_key(branch) {
        shown_indexes_are_by_branch(record.next_indexes, branch);
    }
    if record.range_ends.contains_key(branch) {
        shown_indexes_are_by_branch(record.range_ends, branch);
    }
    if record.last_used_indexes.contains_key(branch) {
        shown_indexes_are_by_branch(record.last_used_indexes, branch);
    }
}

/// An output is shown with its outpoint, its amount, its place and its heights, and
/// with a spend only where it is spent.
pub proof fn shown_output_is_as_it_is(v: UtxoModel)
    ensures
        ({
            let shown = TrackedUtxo::shown(v);
            &&& shown.text_field("outpoint"@) == Some(v.outpoint)
            &&& shown.number_field("amount_msat"@) == Some(v.amount_msat)
            &&& shown.number_field("derivation_index"@) == Some(v.derivation_index as u64)
            &&& shown.number_field("branch"@) == Some(v.branch as u64)
            &&& shown.number_field("deposit_height"@) == Some(v.deposit_height as u64)
            &&& shown.text_field("spent_by"@) == v.spent_by
            &&& v.spent_height matches Some(height) ==> shown.number_field("spent_height"@) == Some(
                height as u64,
            )
            &&& v.spent_height is None ==> shown.field("spent_height"@) is None
            &&& shown.text_field("annotation"@) == v.annotation
        }),
{
    reveal_strlit("outpoint");
    reveal_strlit("amount_msat");
    reveal_strlit("derivation_index");
    reveal_strlit("branch");
    reveal_strlit("deposit_height");
    reveal_strlit("spent_by");
    reveal_strlit("spent_height");
    reveal_strlit("annotation");
    assert("outpoint"@.len() == 8);
    assert("amount_msat"@.len() == 11);
    assert("derivation_index"@.len() == 16);
    assert("branch"@.len() == 6);
    assert("deposit_height"@.len() == 14);
    assert("spent_by"@.len() == 8);
    assert("spent_height"@.len() == 12);
    assert("annotation"@.len() == 10);
    assert("spent_by"@[0] == 's');
    assert("outpoint"@[0] == 'o');
    let fields = TrackedUtxo::shown(v)->Object_0;
    named_field_at(fields, 0);
    named_field_at(fields, 1);
    named_field_at(fields, 2);
    named_field_at(fields, 3);
    named_field_at(fields, 4);
    if v.spent_by is Some {
        named_field_at(fields, 5);
    } else {
        no_field_of_a_name(fields, "spent_by"@);
    }
    let before: int = if v.spent_by is Some {
        6
    } else {
        5
    };
    if v.spent_height is Some {
        named_field_at(fields, before);
    } else {
        no_field_of_a_name(fields, "spent_height"@);
    }
    if v.annotation is Some {
        named_field_at(fields, fields.len() - 1);
    } else {
        no_field_of_a_name(fields, "annotation"@);
    }
}

/// A waiting movement is shown with what Bookkeeper is going to be told.
pub proof fn shown_movement_is_as_it_is(v: MovementModel)
    ensures
        ({
            let shown = PendingMovement::shown(v);
            &&& shown.text_field("id"@) == Some(v.id)
            &&& v.kind is Deposit ==> shown.text_field("kind"@) == Some("deposit"@)
            &&& v.kind is Spend ==> shown.text_field("kind"@) == Some("spend"@)
            &&& v.kind is ExternalDeposit ==> shown.text_field("kind"@) == Some(
                "external_deposit"@,
            )
            &&& v.kind is ExternalDescription ==> shown.text_field("kind"@) == Some(
                "external_description"@,
            )
            &&& shown.text_field("outpoint"@) == Some(v.outpoint)
            &&& shown.number_field("amount_msat"@) == Some(v.amount_msat)
            &&& shown.number_field("blockheight"@) == Some(v.blockheight as u64)
            &&& shown.number_field("timestamp"@) == Some(v.timestamp)
            &&& shown.text_field("spending_txid"@) == v.spending_txid
            &&& shown.text_field("description"@) == v.description
        }),
{
    reveal_strlit("id");
    reveal_strlit("kind");
    reveal_strlit("outpoint");
    reveal_strlit("amount_msat");
    reveal_strlit("blockheight");
    reveal_strlit("timestamp");
    reveal_strlit("spending_txid");
    reveal_strlit("description");
    assert("id"@.len() == 2);
    assert("kind"@.len() == 4);
    assert("outpoint"@.len() == 8);
    assert("amount_msat"@.len() == 11);
    assert("blockheight"@.len() == 11);
    assert("timestamp"@.len() == 9);
    assert("spending_txid"@.len() == 13);
    assert("description"@.len() == 11);
    assert("blockheight"@[0] == 'b');
    assert("amount_msat"@[0] == 'a');
    assert("description"@[0] == 'd');
    let fields = PendingMovement::shown(v)->Object_0;
    named_field_at(fields, 0);
    named_field_at(fields, 1);
    named_field_at(fields, 2);
    named_field_at(fields, 3);
    named_field_at(fields, 4);
    named_field_at(fields, 5);
    if v.spending_txid is Some {
        named_field_at(fields, 6);
    } else {
        no_field_of_a_name(fields, "spending_txid"@);
    }
    if v.description is Some {
        named_field_at(fields, fields.len() - 1);
    } else {
        no_field_of_a_name(fields, "description"@);
    }
}

/// An incident is shown with what failed, since when and how often, and whether the
/// operator has to act.
pub proof fn shown_incident_is_as_it_is(v: IncidentModel)
    ensures
        ({
            let shown = TrackerIncident::shown(v);
            &&& shown.text_field("code"@) == Some(v.code)
            &&& shown.text_field("operation"@) == Some(v.operation)
            &&& shown.text_field("message"@) == Some(v.message)
            &&& shown.number_field("first_seen"@) == Some(v.first_seen)
            &&& shown.number_field("last_seen"@) == Some(v.last_seen)
            &&& shown.number_field("retry_count"@) == Some(v.retry_count)
            &&& shown.field("operator_action_required"@) == Some(
                JsonModel::Bool(v.operator_action_required),
            )
        }),
{
    reveal_strlit("code");
    reveal_strlit("operation");
    reveal_strlit("message");
    reveal_strlit("first_seen");
    reveal_strlit("last_seen");
    reveal_strlit("retry_count");
    reveal_strlit("operator_action_required");
    assert("code"@.len() == 4);
    assert("operation"@.len() == 9);
    assert("message"@.len() == 7);
    assert("first_seen"@.len() == 10);
    assert("last_seen"@.len() == 9);
    assert("retry_count"@.len() == 11);
    assert("operator_action_required"@.len() == 24);
    assert("last_seen"@[0] == 'l');
    assert("operation"@[0] == 'o');
    let fields = TrackerIncident::shown(v)->Object_0;
    named_field_at(fields, 0);
    named_field_at(fields, 1);
    named_field_at(fields, 2);
    named_field_at(fields, 3);
    named_field_at(fields, 4);
    named_field_at(fields, 5);
    named_field_at(fields, 6);
}

/// An issued address is shown with its place, its script and when it was given out.
pub proof fn shown_address_is_as_it_is(v: IssuedModel)
    ensures
        ({
            let shown = IssuedAddress::shown(v);
            &&& shown.text_field("name"@) == Some(v.name)
            &&& shown.number_field("branch"@) == Some(v.branch as u64)
            &&& shown.number_field("index"@) == Some(v.index as u64)
            &&& shown.text_field("address"@) == Some(v.address)
            &&& shown.text_field("scriptpubkey"@) == Some(v.scriptpubkey)
            &&& shown.text_field("annotation"@) == v.annotation
            &&& shown.number_field("issued_at"@) == Some(v.issued_at)
        }),
{
    reveal_strlit("name");
    reveal_strlit("branch");
    reveal_strlit("index");
    reveal_strlit("address");
    reveal_strlit("scriptpubkey");
    reveal_strlit("annotation");
    reveal_strlit("issued_at");
    assert("name"@.len() == 4);
    assert("branch"@.len() == 6);
    assert("index"@.len() == 5);
    assert("address"@.len() == 7);
    assert("scriptpubkey"@.len() == 12);
    assert("annotation"@.len() == 10);
    assert("issued_at"@.len() == 9);
    let fields = IssuedAddress::shown(v)->Object_0;
    named_field_at(fields, 0);
    named_field_at(fields, 1);
    named_field_at(fields, 2);
    named_field_at(fields, 3);
    named_field_at(fields, 4);
    if v.annotation is Some {
        named_field_at(fields, 5);
    } else {
        no_field_of_a_name(fields, "annotation"@);
    }
    named_field_at(fields, fields.len() - 1);
}

/// What bwatch says of itself is shown as it is, with null for what it does not say.
pub proof fn shown_status_is_as_it_is(v: StatusModel, i: int)
    ensures
        ({
            let shown = BwatchStatus::shown(v);
            &&& shown.field("enabled"@) == Some(JsonModel::Bool(v.enabled))
            &&& shown.number_field("current_height"@) == Some(v.current_height as u64)
            &&& v.backend_height matches Some(height) ==> shown.number_field("backend_height"@)
                == Some(height as u64)
            &&& v.backend_height is None ==> shown.field("backend_height"@) == Some(
                JsonModel::Null,
            )
            &&& v.lag matches Some(lag) ==> shown.number_field("lag"@) == Some(lag as u64)
            &&& v.lag is None ==> shown.field("lag"@) == Some(JsonModel::Null)
            &&& v.caught_up matches Some(b) ==> shown.field("caught_up"@) == Some(
                JsonModel::Bool(b),
            )
            &&& v.caught_up is None ==> shown.field("caught_up"@) == Some(JsonModel::Null)
            &&& v.last_poll_error matches Some(fault) ==> shown.field(
                "last_poll_error"@,
            )->Some_0.text_field("message"@) == Some(fault.message)
            &&& v.last_poll_error is None ==> shown.field("last_poll_error"@) == Some(
                JsonModel::Null,
            )
            &&& v.last_rescan_error matches Some(fault) ==> shown.field(
                "last_rescan_error"@,
            )->Some_0.text_field("message"@) == Some(fault.message)
            &&& v.last_rescan_error is None ==> shown.field("last_rescan_error"@) == Some(
                JsonModel::Null,
            )
            &&& shown.list_field("active_rescans"@) is Some
            &&& shown.list_field("active_rescans"@)->Some_0.len() == v.active_rescans.len()
            &&& 0 <= i < v.active_rescans.len() ==> shown.list_field(
                "active_rescans"@,
            )->Some_0[i] == BwatchRescan::shown(v.active_rescans[i])
        }),
{
    reveal_strlit("enabled");
    reveal_strlit("current_height");
    reveal_strlit("backend_height");
    reveal_strlit("lag");
    reveal_strlit("caught_up");
    reveal_strlit("last_poll_error");
    reveal_strlit("last_rescan_error");
    reveal_strlit("active_rescans");
    assert("enabled"@.len() == 7);
    assert("current_height"@.len() == 14);
    assert("backend_height"@.len() == 14);
    assert("lag"@.len() == 3);
    assert("caught_up"@.len() == 9);
    assert("last_poll_error"@.len() == 15);
    assert("last_rescan_error"@.len() == 17);
    assert("active_rescans"@.len() == 14);
    assert("backend_height"@[0] == 'b');
    assert("current_height"@[0] == 'c');
    assert("active_rescans"@[0] == 'a');
    let fields = BwatchStatus::shown(v)->Object_0;
    named_field_at(fields, 0);
    named_field_at(fields, 1);
    named_field_at(fields, 2);
    named_field_at(fields, 3);
    named_field_at(fields, 4);
    named_field_at(fields, 5);
    named_field_at(fields, 6);
    named_field_at(fields, 7);
    if v.last_poll_error is Some {
        shown_fault_is_as_it_is(v.last_poll_error->Some_0);
    }
    if v.last_rescan_error is Some {
        shown_fault_is_as_it_is(v.last_rescan_error->Some_0);
    }
}

/// A failure of bwatch is shown with where and why it failed.
pub proof fn shown_fault_is_as_it_is(v: FaultModel)
    ensures
        ({
            let shown = BwatchError::shown(v);
            &&& shown.number_field("height"@) == Some(v.height as u64)
            &&& v.target_height matches Some(height) ==> shown.number_field("target_height"@)
                == Some(height as u64)
            &&& v.target_height is None ==> shown.field("target_height"@) == Some(JsonModel::Null)
            &&& shown.text_field("message"@) == Some(v.message)
        }),
{
    reveal_strlit("height");
    reveal_strlit("target_height");
    reveal_strlit("message");
    assert("height"@.len() == 6);
    assert("target_height"@.len() == 13);
    assert("message"@.len() == 7);
    let fields = BwatchError::shown(v)->Object_0;
    named_field_at(fields, 0);
    named_field_at(fields, 1);
    named_field_at(fields, 2);
}

/// A scan of bwatch is shown with its blocks and with what it has found.
pub proof fn shown_rescan_is_as_it_is(v: RescanModel)
    ensures
        ({
            let shown = BwatchRescan::shown(v);
            &&& shown.text_field("watch_type"@) == Some(v.watch_type)
            &&& shown.list_field("owners"@) is Some
            &&& shown.list_field("owners"@)->Some_0.len() == v.owners.len()
            &&& forall|i: int|
                0 <= i < v.owners.len() ==> (#[trigger] shown.list_field("owners"@)->Some_0[i])
                    == JsonModel::Text(v.owners[i])
            &&& shown.number_field("start_height"@) == Some(v.start_height as u64)
            &&& shown.number_field("current_height"@) == Some(v.current_height as u64)
            &&& shown.number_field("target_height"@) == Some(v.target_height as u64)
            &&& shown.number_field("blocks_processed"@) == Some(v.blocks_processed)
            &&& shown.number_field("blocks_total"@) == Some(v.blocks_total)
            &&& shown.number_field("progress_percent"@) == Some(v.progress_percent)
            &&& shown.number_field("script_matches_found"@) == Some(v.script_matches_found)
            &&& shown.number_field("outpoint_matches_found"@) == Some(v.outpoint_matches_found)
            &&& shown.number_field("outpoints_followed"@) == Some(v.outpoints_followed)
        }),
{
    reveal_strlit("watch_type");
    reveal_strlit("owners");
    reveal_strlit("start_height");
    reveal_strlit("current_height");
    reveal_strlit("target_height");
    reveal_strlit("blocks_processed");
    reveal_strlit("blocks_total");
    reveal_strlit("progress_percent");
    reveal_strlit("script_matches_found");
    reveal_strlit("outpoint_matches_found");
    reveal_strlit("outpoints_followed");
    assert("watch_type"@.len() == 10);
    assert("owners"@.len() == 6);
    assert("start_height"@.len() == 12);
    assert("current_height"@.len() == 14);
    assert("target_height"@.len() == 13);
    assert("blocks_processed"@.len() == 16);
    assert("blocks_total"@.len() == 12);
    assert("progress_percent"@.len() == 16);
    assert("script_matches_found"@.len() == 20);
    assert("outpoint_matches_found"@.len() == 22);
    assert("outpoints_followed"@.len() == 18);
    assert("blocks_total"@[0] == 'b');
    assert("start_height"@[0] == 's');
    assert("progress_percent"@[0] == 'p');
    assert("blocks_processed"@[0] == 'b');
    let fields = BwatchRescan::shown(v)->Object_0;
    named_field_at(fields, 0);
    named_field_at(fields, 1);
    named_field_at(fields, 2);
    named_field_at(fields, 3);
    named_field_at(fields, 4);
    named_field_at(fields, 5);
    named_field_at(fields, 6);
    named_field_at(fields, 7);
    named_field_at(fields, 8);
    named_field_at(fields, 9);
    named_field_at(fields, 10);
}

} // verus!
