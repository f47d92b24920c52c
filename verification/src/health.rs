//! What tracker says of its health, and the metrics of it.

use crate::cln::{BwatchRescan, BwatchStatus, StatusModel};
use crate::json::{named_field_at, no_field_of_a_name, no_fields, Fields, Json, JsonModel};
use crate::model::{DescriptorStatus, IncidentModel, RecordModel};
use crate::ordered::{models, sorted_keys, sorted_values};
use crate::state::{AppState, StateModel};
use crate::views::{shown_status_is_as_it_is, status_name, status_text, Shown};
use vstd::prelude::*;

verus! {

/// The number of records of a row with a status.
pub open spec fn count_status(records: Seq<RecordModel>, status: DescriptorStatus) -> nat
    decreases records.len(),
{
    if records.len() == 0 {
        0
    } else {
        count_status(records.drop_last(), status) + (if records.last().status == status {
            1nat
        } else {
            0nat
        })
    }
}

/// The number of pending movements of a row of records.
pub open spec fn count_pending(records: Seq<RecordModel>) -> nat
    decreases records.len(),
{
    if records.len() == 0 {
        0
    } else {
        count_pending(records.drop_last()) + records.last().pending_movements.dom().len()
    }
}

/// A number, up to the greatest one that can be shown.
pub open spec fn capped(n: nat) -> u64 {
    if n > u64::MAX {
        u64::MAX
    } else {
        n as u64
    }
}

/// How the incident of a record is shown.
pub open spec fn incident_shown(record: RecordModel, incident: IncidentModel) -> JsonModel {
    JsonModel::Object(
        no_fields()
            .push(("descriptor"@, JsonModel::Text(record.config.name)))
            .push(("status"@, JsonModel::Text(status_text(record.status))))
            .push(("code"@, JsonModel::Text(incident.code)))
            .push(("operation"@, JsonModel::Text(incident.operation)))
            .push(("message"@, JsonModel::Text(incident.message)))
            .push(("first_seen"@, JsonModel::Number(incident.first_seen)))
            .push(("last_seen"@, JsonModel::Number(incident.last_seen)))
            .push(("retry_count"@, JsonModel::Number(incident.retry_count)))
            .push(
                (
                    "operator_action_required"@,
                    JsonModel::Bool(incident.operator_action_required),
                ),
            ),
    )
}

/// How the incidents of a row of records are shown.
pub open spec fn incidents_shown(records: Seq<RecordModel>) -> Seq<JsonModel>
    decreases records.len(),
{
    if records.len() == 0 {
        Seq::empty()
    } else {
        let rest = incidents_shown(records.drop_last());
        match records.last().incident {
            Some(incident) => rest.push(incident_shown(records.last(), incident)),
            None => rest,
        }
    }
}

/// bwatch is on, has caught up and reports no failure.
pub open spec fn is_bwatch_healthy(status: StatusModel) -> bool {
    status.enabled && status.caught_up == Some(true) && status.last_poll_error is None
        && status.last_rescan_error is None
}

/// Whether bwatch is on, has caught up and reports no failure.
pub fn bwatch_is_healthy(status: &BwatchStatus) -> (r: bool)
    ensures
        r == is_bwatch_healthy(status@),
{
    let caught_up = match status.caught_up {
        Some(caught_up) => caught_up,
        None => false,
    };
    status.enabled && caught_up && status.last_poll_error.is_none()
        && status.last_rescan_error.is_none()
}

/// How what bwatch said of itself, or the failure to ask it, is shown.
pub open spec fn bwatch_shown(bwatch: Result<StatusModel, Seq<char>>) -> JsonModel {
    match bwatch {
        Ok(status) => BwatchStatus::shown(status),
        Err(message) => JsonModel::Object(no_fields().push(("error"@, JsonModel::Text(message)))),
    }
}

/// All descriptors are active and without incident, and bwatch is healthy.
pub open spec fn all_healthy(
    records: Seq<RecordModel>,
    bwatch: Result<StatusModel, Seq<char>>,
) -> bool {
    &&& incidents_shown(records).len() == 0
    &&& count_status(records, DescriptorStatus::Syncing) == 0
    &&& count_status(records, DescriptorStatus::Deleting) == 0
    &&& bwatch matches Ok(status) && is_bwatch_healthy(status)
}

/// What a state says of its health.
pub open spec fn health_of(state: StateModel, bwatch: Result<StatusModel, Seq<char>>) -> JsonModel {
    let records = sorted_values(state.inner.records);
    JsonModel::Object(
        no_fields()
            .push(("healthy"@, JsonModel::Bool(all_healthy(records, bwatch))))
            .push(
                (
                    "descriptors"@,
                    JsonModel::Object(
                        no_fields()
                            .push(("total"@, JsonModel::Number(records.len() as u64)))
                            .push(
                                (
                                    "active"@,
                                    JsonModel::Number(
                                        count_status(records, DescriptorStatus::Active) as u64,
                                    ),
                                ),
                            )
                            .push(
                                (
                                    "syncing"@,
                                    JsonModel::Number(
                                        count_status(records, DescriptorStatus::Syncing) as u64,
                                    ),
                                ),
                            )
                            .push(
                                (
                                    "deleting"@,
                                    JsonModel::Number(
                                        count_status(records, DescriptorStatus::Deleting) as u64,
                                    ),
                                ),
                            )
                            .push(
                                (
                                    "pending_movements"@,
                                    JsonModel::Number(capped(count_pending(records))),
                                ),
                            ),
                    ),
                ),
            )
            .push(("incidents"@, JsonModel::List(incidents_shown(records))))
            .push(("bwatch"@, bwatch_shown(bwatch)))
            .push(
                (
                    "counters"@,
                    JsonModel::Object(
                        no_fields()
                            .push(
                                (
                                    "reconciliation_failures"@,
                                    JsonModel::Number(state.inner.reconciliation_failures),
                                ),
                            )
                            .push(
                                (
                                    "bookkeeper_failures"@,
                                    JsonModel::Number(state.inner.bookkeeper_failures),
                                ),
                            )
                            .push(("reorgs"@, JsonModel::Number(state.inner.reorgs))),
                    ),
                ),
            ),
    )
}

/// What an answer of bwatch stands for.
pub open spec fn answer_model(bwatch: Result<BwatchStatus, String>) -> Result<
    StatusModel,
    Seq<char>,
> {
    match bwatch {
        Ok(status) => Ok(status@),
        Err(message) => Err(message@),
    }
}

/// Says how a state is, given the answer of bwatch.
pub fn health_snapshot(state: &AppState, bwatch: &Result<BwatchStatus, String>) -> (r: Json)
    ensures
        r@ == health_of(state@, answer_model(*bwatch)),
{
    let tracker = &state.inner;
    let ghost keys = sorted_keys(tracker.records@.dom());
    let ghost all = sorted_values(tracker.records@);
    let n = tracker.records.len();
    let mut active: u64 = 0;
    let mut syncing: u64 = 0;
    let mut deleting: u64 = 0;
    let mut pending_movements: u64 = 0;
    let mut incidents: Vec<Json> = Vec::new();
    let mut i: usize = 0;
    assert(models(incidents@) =~= Seq::<JsonModel>::empty());
    while i < n
        invariant
            i <= n,
            n == keys.len(),
            n == tracker.records@.dom().len(),
            keys == sorted_keys(tracker.records@.dom()),
            all == sorted_values(tracker.records@),
            active == count_status(all.take(i as int), DescriptorStatus::Active),
            syncing == count_status(all.take(i as int), DescriptorStatus::Syncing),
            deleting == count_status(all.take(i as int), DescriptorStatus::Deleting),
            active <= i,
            syncing <= i,
            deleting <= i,
            pending_movements == capped(count_pending(all.take(i as int))),
            models(incidents@) == incidents_shown(all.take(i as int)),
        decreases n - i,
    {
        let (_, record) = tracker.records.at(i);
        assert(all[i as int] == record@);
        assert(all.take(i + 1).drop_last() =~= all.take(i as int));
        let pending = record.pending_movements.len() as u64;
        pending_movements = if pending > u64::MAX - pending_movements {
            u64::MAX
        } else {
            pending_movements + pending
        };
        match record.status {
            DescriptorStatus::Active => {
                active = active + 1;
            },
            DescriptorStatus::Syncing => {
                syncing = syncing + 1;
            },
            DescriptorStatus::Deleting => {
                deleting = deleting + 1;
            },
        }
        match &record.incident {
            Some(incident) => {
                let ghost before = models(incidents@);
                let mut fields = Fields::new();
                fields.put_text("descriptor", record.config.name.as_str());
                fields.put_text("status", status_name(record.status));
                fields.put_text("code", incident.code.as_str());
                fields.put_text("operation", incident.operation.as_str());
                fields.put_text("message", incident.message.as_str());
                fields.put_number("first_seen", incident.first_seen);
                fields.put_number("last_seen", incident.last_seen);
                fields.put_number("retry_count", incident.retry_count);
                fields.put(
                    "operator_action_required",
                    Json::Bool(incident.operator_action_required),
                );
                let shown = fields.done();
                incidents.push(shown);
                assert(models(incidents@) =~= before.push(shown@));
            },
            None => {},
        }
        i = i + 1;
    }
    assert(all.take(i as int) =~= all);
    let bwatch_healthy = match bwatch {
        Ok(status) => bwatch_is_healthy(status),
        Err(_) => false,
    };
    let healthy = incidents.len() == 0 && syncing == 0 && deleting == 0 && bwatch_healthy;
    let bwatch_value = match bwatch {
        Ok(status) => status.show(),
        Err(message) => {
            let mut fields = Fields::new();
            fields.put_text("error", message.as_str());
            fields.done()
        },
    };
    let mut descriptors = Fields::new();
    descriptors.put_number("total", n as u64);
    descriptors.put_number("active", active);
    descriptors.put_number("syncing", syncing);
    descriptors.put_number("deleting", deleting);
    descriptors.put_number("pending_movements", pending_movements);
    let mut counters = Fields::new();
    counters.put_number("reconciliation_failures", tracker.reconciliation_failures);
    counters.put_number("bookkeeper_failures", tracker.bookkeeper_failures);
    counters.put_number("reorgs", tracker.reorgs);
    let mut fields = Fields::new();
    fields.put("healthy", Json::Bool(healthy));
    fields.put("descriptors", descriptors.done());
    fields.put("incidents", Json::of_list(incidents));
    fields.put("bwatch", bwatch_value);
    fields.put("counters", counters.done());
    fields.done()
}

/// A family of samples.
pub open spec fn family(
    name: Seq<char>,
    help: Seq<char>,
    kind: Seq<char>,
    samples: JsonModel,
) -> JsonModel {
    JsonModel::Object(
        no_fields()
            .push(("name"@, JsonModel::Text(name)))
            .push(("help"@, JsonModel::Text(help)))
            .push(("type"@, JsonModel::Text(kind)))
            .push(("samples"@, samples)),
    )
}

/// A sample with labels.
pub open spec fn sample(labels: Seq<(Seq<char>, JsonModel)>, value: JsonModel) -> JsonModel {
    JsonModel::Object(
        no_fields().push(("labels"@, JsonModel::Object(labels))).push(("value"@, value)),
    )
}

/// A family of one sample without labels.
pub open spec fn single(
    name: Seq<char>,
    help: Seq<char>,
    kind: Seq<char>,
    value: JsonModel,
) -> JsonModel {
    family(name, help, kind, JsonModel::List(seq![sample(no_fields(), value)]))
}

/// Shows a family of samples.
fn show_family(name: &str, help: &str, kind: &str, samples: Json) -> (r: Json)
    ensures
        r@ == family(name@, help@, kind@, samples@),
{
    let mut fields = Fields::new();
    fields.put_text("name", name);
    fields.put_text("help", help);
    fields.put_text("type", kind);
    fields.put("samples", samples);
    fields.done()
}

/// Shows a sample.
fn show_sample(labels: Fields, value: Json) -> (r: Json)
    ensures
        r@ == sample(labels@, value@),
{
    let mut fields = Fields::new();
    fields.put("labels", labels.done());
    fields.put("value", value);
    fields.done()
}

/// Shows a family of one sample without labels.
fn show_single(name: &str, help: &str, kind: &str, value: Json) -> (r: Json)
    ensures
        r@ == single(name@, help@, kind@, value@),
{
    let only = show_sample(Fields::new(), value);
    let samples: Vec<Json> = vec![only];
    assert(models(samples@) =~= seq![only@]);
    show_family(name, help, kind, Json::of_list(samples))
}

/// A value is a number.
pub open spec fn is_numeric(value: JsonModel) -> bool {
    value is Number || value is OtherNumber || value is Ratio
}

/// The number at a field of a field, and zero where there is none: a sample is
/// a number.
pub open spec fn number_at(health: JsonModel, section: Seq<char>, name: Seq<char>) -> JsonModel {
    match health.field(section) {
        Some(found) => match found.field(name) {
            Some(value) => if is_numeric(value) {
                value
            } else {
                JsonModel::Number(0)
            },
            None => JsonModel::Number(0),
        },
        None => JsonModel::Number(0),
    }
}

/// The number at a field of a field, and zero where there is none.
fn read_number(health: &Json, section: &str, name: &str) -> (r: Json)
    ensures
        r@ == number_at(health@, section@, name@),
{
    match health.get(section) {
        Some(found) => match found.get(name) {
            Some(value) => match value {
                Json::Number(_) | Json::OtherNumber(_) | Json::Ratio(_, _) => value.duplicate(),
                _ => Json::Number(0),
            },
            None => Json::Number(0),
        },
        None => Json::Number(0),
    }
}

/// The items of a list, and none where it is no list.
pub open spec fn listed(value: Option<JsonModel>) -> Seq<JsonModel> {
    match value {
        Some(value) => match value.items() {
            Some(items) => items,
            None => Seq::empty(),
        },
        None => Seq::empty(),
    }
}

/// The incidents that a report of health names.
pub open spec fn incidents_in(health: JsonModel) -> Seq<JsonModel> {
    listed(health.field("incidents"@))
}

/// The scans that a report of health names.
pub open spec fn rescans_in(health: JsonModel) -> Seq<JsonModel> {
    match health.field("bwatch"@) {
        Some(bwatch) => listed(bwatch.field("active_rescans"@)),
        None => Seq::empty(),
    }
}

/// The text of a field, or that it is unknown.
pub open spec fn label_of(value: JsonModel, name: Seq<char>) -> JsonModel {
    JsonModel::Text(
        match value.text_field(name) {
            Some(text) => text,
            None => "unknown"@,
        },
    )
}

/// Adds the text of a field as a label.
fn put_label(fields: &mut Fields, value: &Json, name: &str)
    ensures
        final(fields)@ == old(fields)@.push((name@, label_of(value@, name@))),
{
    match value.get_str(name) {
        Some(text) => {
            fields.put_text(name, text.as_str());
        },
        None => {
            fields.put_text(name, "unknown");
        },
    }
}

/// The sample of an incident.
pub open spec fn incident_sample(incident: JsonModel) -> JsonModel {
    sample(
        no_fields()
            .push(("descriptor"@, label_of(incident, "descriptor"@)))
            .push(("code"@, label_of(incident, "code"@)))
            .push(("operation"@, label_of(incident, "operation"@))),
        JsonModel::Number(1),
    )
}

/// The samples of incidents.
pub open spec fn incident_samples(incidents: Seq<JsonModel>) -> Seq<JsonModel> {
    incidents.map_values(|incident: JsonModel| incident_sample(incident))
}

/// Shows the samples of the incidents that a report of health names.
fn show_incident_samples(health: &Json) -> (r: Json)
    ensures
        r@ == JsonModel::List(incident_samples(incidents_in(health@))),
{
    let mut samples: Vec<Json> = Vec::new();
    match health.get_list("incidents") {
        Some(incidents) => {
            let mut i: usize = 0;
            while i < incidents.len()
                invariant
                    i <= incidents.len(),
                    samples.len() == i,
                    forall|j: int|
                        0 <= j < i ==> #[trigger] samples[j]@ == incident_sample(incidents[j]@),
                decreases incidents.len() - i,
            {
                let incident = &incidents[i];
                let mut labels = Fields::new();
                put_label(&mut labels, incident, "descriptor");
                put_label(&mut labels, incident, "code");
                put_label(&mut labels, incident, "operation");
                samples.push(show_sample(labels, Json::Number(1)));
                i = i + 1;
            }
            assert(models(samples@) =~= incident_samples(models(incidents@)));
        },
        None => {},
    }
    assert(models(samples@) =~= incident_samples(incidents_in(health@)));
    Json::of_list(samples)
}

/// The sample of a status of descriptors.
pub open spec fn status_sample(health: JsonModel, status: Seq<char>) -> JsonModel {
    sample(
        no_fields().push(("status"@, JsonModel::Text(status))),
        number_at(health, "descriptors"@, status),
    )
}

/// The samples of the statuses of descriptors.
pub open spec fn descriptor_samples(health: JsonModel) -> Seq<JsonModel> {
    seq![
        status_sample(health, "active"@),
        status_sample(health, "syncing"@),
        status_sample(health, "deleting"@),
    ]
}

/// Shows the sample of a status of descriptors.
fn show_status_sample(health: &Json, status: &str) -> (r: Json)
    ensures
        r@ == status_sample(health@, status@),
{
    let mut labels = Fields::new();
    labels.put_text("status", status);
    show_sample(labels, read_number(health, "descriptors", status))
}

/// Shows the samples of the statuses of descriptors.
fn show_descriptor_samples(health: &Json) -> (r: Json)
    ensures
        r@ == JsonModel::List(descriptor_samples(health@)),
{
    let samples = vec![
        show_status_sample(health, "active"),
        show_status_sample(health, "syncing"),
        show_status_sample(health, "deleting"),
    ];
    assert(models(samples@) =~= descriptor_samples(health@));
    Json::of_list(samples)
}

/// The sum of a field over scans: one that is no number counts for nothing.
pub open spec fn rescan_sum(rescans: Seq<JsonModel>, name: Seq<char>) -> nat
    decreases rescans.len(),
{
    if rescans.len() == 0 {
        0
    } else {
        rescan_sum(rescans.drop_last(), name) + (match rescans.last().number_field(name) {
            Some(n) => n as nat,
            None => 0nat,
        })
    }
}

/// The sum of a field over the first scans is no greater than over all.
proof fn rescan_sum_grows(rescans: Seq<JsonModel>, name: Seq<char>, n: int)
    requires
        0 <= n <= rescans.len(),
    ensures
        rescan_sum(rescans.take(n), name) <= rescan_sum(rescans, name),
    decreases rescans.len(),
{
    if n == rescans.len() {
        assert(rescans.take(n) =~= rescans);
    } else {
        rescan_sum_grows(rescans.drop_last(), name, n);
        assert(rescans.drop_last().take(n) =~= rescans.take(n));
    }
}

/// The sum of a field over scans, where it can be shown.
fn sum_field(rescans: &Vec<Json>, name: &str) -> (r: Option<u64>)
    ensures
        r == (if rescan_sum(models(rescans@), name@) <= u64::MAX {
            Some(rescan_sum(models(rescans@), name@) as u64)
        } else {
            None
        }),
{
    let ghost all = models(rescans@);
    let mut sum: u64 = 0;
    let mut i: usize = 0;
    while i < rescans.len()
        invariant
            i <= rescans.len(),
            all == models(rescans@),
            sum == rescan_sum(all.take(i as int), name@),
        decreases rescans.len() - i,
    {
        assert(all[i as int] == rescans[i as int]@);
        assert(all.take(i + 1).drop_last() =~= all.take(i as int));
        match rescans[i].get_u64(name) {
            Some(n) => {
                if n > u64::MAX - sum {
                    proof {
                        rescan_sum_grows(all, name@, i + 1);
                    }
                    return None;
                }
                sum = sum + n;
            },
            None => {},
        }
        i = i + 1;
    }
    assert(all.take(i as int) =~= all);
    Some(sum)
}

/// The scans that a report of health names, where it names any.
fn active_rescans(health: &Json) -> (r: Option<&Vec<Json>>)
    ensures
        rescans_in(health@) == (match r {
            Some(rescans) => models(rescans@),
            None => Seq::empty(),
        }),
{
    match health.get("bwatch") {
        Some(bwatch) => bwatch.get_list("active_rescans"),
        None => None,
    }
}

/// The sums over the scans that a report of health names can be shown.
pub open spec fn sums_fit(health: JsonModel) -> bool {
    let rescans = rescans_in(health);
    &&& rescan_sum(rescans, "blocks_processed"@) <= u64::MAX
    &&& rescan_sum(rescans, "blocks_total"@) <= u64::MAX
    &&& rescan_sum(rescans, "script_matches_found"@) <= u64::MAX
    &&& rescan_sum(rescans, "outpoint_matches_found"@) <= u64::MAX
    &&& rescan_sum(rescans, "outpoints_followed"@) <= u64::MAX
}

/// Whether the sums over the scans that a report of health names can be shown.
pub fn metrics_fit(health: &Json) -> (r: bool)
    ensures
        r == sums_fit(health@),
{
    match active_rescans(health) {
        Some(rescans) => sum_field(rescans, "blocks_processed").is_some()
            && sum_field(rescans, "blocks_total").is_some()
            && sum_field(rescans, "script_matches_found").is_some()
            && sum_field(rescans, "outpoint_matches_found").is_some()
            && sum_field(rescans, "outpoints_followed").is_some(),
        None => true,
    }
}

/// The sum of a field over the scans that a report of health names.
fn sum_in(health: &Json, name: &str) -> (r: u64)
    requires
        rescan_sum(rescans_in(health@), name@) <= u64::MAX,
    ensures
        r == rescan_sum(rescans_in(health@), name@),
{
    match active_rescans(health) {
        Some(rescans) => match sum_field(rescans, name) {
            Some(sum) => sum,
            None => 0,
        },
        None => 0,
    }
}

/// How much of the scans is done: nothing where there are no blocks.
pub open spec fn progress_ratio(rescans: Seq<JsonModel>) -> JsonModel {
    if rescan_sum(rescans, "blocks_total"@) == 0 {
        JsonModel::Ratio(0, 1)
    } else {
        JsonModel::Ratio(
            rescan_sum(rescans, "blocks_processed"@) as u64,
            rescan_sum(rescans, "blocks_total"@) as u64,
        )
    }
}

/// A report says that all is healthy.
pub open spec fn is_healthy(health: JsonModel) -> bool {
    health.field("healthy"@) == Some(JsonModel::Bool(true))
}

/// Whether a report says that all is healthy.
fn reads_healthy(health: &Json) -> (r: bool)
    ensures
        r == is_healthy(health@),
{
    match health.get("healthy") {
        Some(Json::Bool(healthy)) => *healthy,
        _ => false,
    }
}

/// The families of metrics of a report of health.
pub open spec fn metric_families(health: JsonModel) -> Seq<JsonModel> {
    let rescans = rescans_in(health);
    seq![
        single(
            "healthy"@,
            "Whether Tracker, its descriptors, and bwatch are healthy."@,
            "gauge"@,
            JsonModel::Number(if is_healthy(health) { 1 } else { 0 }),
        ),
        family(
            "descriptors"@,
            "Registered Tracker descriptors by lifecycle state."@,
            "gauge"@,
            JsonModel::List(descriptor_samples(health)),
        ),
        single(
            "pending_movements"@,
            "Bookkeeper movements waiting for their confirmation depth."@,
            "gauge"@,
            number_at(health, "descriptors"@, "pending_movements"@),
        ),
        family(
            "incident"@,
            "Unresolved Tracker incidents by descriptor and operation."@,
            "gauge"@,
            JsonModel::List(incident_samples(incidents_in(health))),
        ),
        single(
            "bwatch_height"@,
            "Last block height processed by bwatch."@,
            "gauge"@,
            number_at(health, "bwatch"@, "current_height"@),
        ),
        single(
            "bwatch_lag_blocks"@,
            "Number of blocks bwatch is behind the chain tip."@,
            "gauge"@,
            number_at(health, "bwatch"@, "lag"@),
        ),
        single(
            "bwatch_active_rescans"@,
            "Number of historical bwatch rescans currently in progress."@,
            "gauge"@,
            JsonModel::Number(rescans.len() as u64),
        ),
        single(
            "bwatch_rescan_blocks_processed"@,
            "Blocks processed across active historical bwatch rescans."@,
            "gauge"@,
            JsonModel::Number(rescan_sum(rescans, "blocks_processed"@) as u64),
        ),
        single(
            "bwatch_rescan_blocks_total"@,
            "Total blocks across active historical bwatch rescans."@,
            "gauge"@,
            JsonModel::Number(rescan_sum(rescans, "blocks_total"@) as u64),
        ),
        single(
            "bwatch_rescan_progress_ratio"@,
            "Aggregate completion ratio across active historical bwatch rescans."@,
            "gauge"@,
            progress_ratio(rescans),
        ),
        single(
            "bwatch_rescan_script_matches_found"@,
            "Descriptor outputs found across active historical bwatch rescans."@,
            "gauge"@,
            JsonModel::Number(rescan_sum(rescans, "script_matches_found"@) as u64),
        ),
        single(
            "bwatch_rescan_outpoint_matches_found"@,
            "Spending inputs found across active historical bwatch rescans."@,
            "gauge"@,
            JsonModel::Number(rescan_sum(rescans, "outpoint_matches_found"@) as u64),
        ),
        single(
            "bwatch_rescan_outpoints_followed"@,
            "Unique matched outputs followed across active historical bwatch rescans."@,
            "gauge"@,
            JsonModel::Number(rescan_sum(rescans, "outpoints_followed"@) as u64),
        ),
        single(
            "reconciliation_failures_total"@,
            "Tracker watch reconciliation failures in this process."@,
            "counter"@,
            number_at(health, "counters"@, "reconciliation_failures"@),
        ),
        single(
            "bookkeeper_failures_total"@,
            "Tracker Bookkeeper delivery failures in this process."@,
            "counter"@,
            number_at(health, "counters"@, "bookkeeper_failures"@),
        ),
        single(
            "reorgs_total"@,
            "Chain reorganizations handled by Tracker in this process."@,
            "counter"@,
            number_at(health, "counters"@, "reorgs"@),
        ),
    ]
}

/// The metrics of a report of health.
pub open spec fn metrics_of(health: JsonModel) -> JsonModel {
    JsonModel::Object(
        no_fields()
            .push(("version"@, JsonModel::Number(1)))
            .push(("namespace"@, JsonModel::Text("tracker"@)))
            .push(("families"@, JsonModel::List(metric_families(health)))),
    )
}

/// Gives the metrics of a report of health whose sums can be shown.
pub fn metrics_from_health(health: &Json) -> (r: Json)
    requires
        sums_fit(health@),
    ensures
        r@ == metrics_of(health@),
{
    let blocks_processed = sum_in(health, "blocks_processed");
    let blocks_total = sum_in(health, "blocks_total");
    let script_matches_found = sum_in(health, "script_matches_found");
    let outpoint_matches_found = sum_in(health, "outpoint_matches_found");
    let outpoints_followed = sum_in(health, "outpoints_followed");
    let count: u64 = match active_rescans(health) {
        Some(rescans) => rescans.len() as u64,
        None => 0,
    };
    let ratio = if blocks_total == 0 {
        Json::Ratio(0, 1)
    } else {
        Json::Ratio(blocks_processed, blocks_total)
    };
    let mut families: Vec<Json> = Vec::new();
    families.push(
        show_single(
            "healthy",
            "Whether Tracker, its descriptors, and bwatch are healthy.",
            "gauge",
            Json::Number(if reads_healthy(health) { 1 } else { 0 }),
        ),
    );
    families.push(
        show_family(
            "descriptors",
            "Registered Tracker descriptors by lifecycle state.",
            "gauge",
            show_descriptor_samples(health),
        ),
    );
    families.push(
        show_single(
            "pending_movements",
            "Bookkeeper movements waiting for their confirmation depth.",
            "gauge",
            read_number(health, "descriptors", "pending_movements"),
        ),
    );
    families.push(
        show_family(
            "incident",
            "Unresolved Tracker incidents by descriptor and operation.",
            "gauge",
            show_incident_samples(health),
        ),
    );
    families.push(
        show_single(
            "bwatch_height",
            "Last block height processed by bwatch.",
            "gauge",
            read_number(health, "bwatch", "current_height"),
        ),
    );
    families.push(
        show_single(
            "bwatch_lag_blocks",
            "Number of blocks bwatch is behind the chain tip.",
            "gauge",
            read_number(health, "bwatch", "lag"),
        ),
    );
    families.push(
        show_single(
            "bwatch_active_rescans",
            "Number of historical bwatch rescans currently in progress.",
            "gauge",
            Json::Number(count),
        ),
    );
    families.push(
        show_single(
            "bwatch_rescan_blocks_processed",
            "Blocks processed across active historical bwatch rescans.",
            "gauge",
            Json::Number(blocks_processed),
        ),
    );
    families.push(
        show_single(
            "bwatch_rescan_blocks_total",
            "Total blocks across active historical bwatch rescans.",
            "gauge",
            Json::Number(blocks_total),
        ),
    );
    families.push(
        show_single(
            "bwatch_rescan_progress_ratio",
            "Aggregate completion ratio across active historical bwatch rescans.",
            "gauge",
            ratio,
        ),
    );
    families.push(
        show_single(
            "bwatch_rescan_script_matches_found",
            "Descriptor outputs found across active historical bwatch rescans.",
            "gauge",
            Json::Number(script_matches_found),
        ),
    );
    families.push(
        show_single(
            "bwatch_rescan_outpoint_matches_found",
            "Spending inputs found across active historical bwatch rescans.",
            "gauge",
            Json::Number(outpoint_matches_found),
        ),
    );
    families.push(
        show_single(
            "bwatch_rescan_outpoints_followed",
            "Unique matched outputs followed across active historical bwatch rescans.",
            "gauge",
            Json::Number(outpoints_followed),
        ),
    );
    families.push(
        show_single(
            "reconciliation_failures_total",
            "Tracker watch reconciliation failures in this process.",
            "counter",
            read_number(health, "counters", "reconciliation_failures"),
        ),
    );
    families.push(
        show_single(
            "bookkeeper_failures_total",
            "Tracker Bookkeeper delivery failures in this process.",
            "counter",
            read_number(health, "counters", "bookkeeper_failures"),
        ),
    );
    families.push(
        show_single(
            "reorgs_total",
            "Chain reorganizations handled by Tracker in this process.",
            "counter",
            read_number(health, "counters", "reorgs"),
        ),
    );
    assert(models(families@) =~= metric_families(health@));
    let mut fields = Fields::new();
    fields.put_number("version", 1);
    fields.put_text("namespace", "tracker");
    fields.put("families", Json::of_list(families));
    fields.done()
}

/// Gives the metrics of a report of health, where its sums can be shown.
pub fn metrics(health: &Json) -> (r: Option<Json>)
    ensures
        match r {
            Some(metrics) => sums_fit(health@) && metrics@ == metrics_of(health@),
            None => !sums_fit(health@),
        },
{
    if metrics_fit(health) {
        Some(metrics_from_health(health))
    } else {
        None
    }
}

/// Each descriptor has one status: those of a state add up to all of them.
pub proof fn statuses_add_up(records: Seq<RecordModel>)
    ensures
        count_status(records, DescriptorStatus::Active) + count_status(
            records,
            DescriptorStatus::Syncing,
        ) + count_status(records, DescriptorStatus::Deleting) == records.len(),
    decreases records.len(),
{
    if records.len() > 0 {
        statuses_add_up(records.drop_last());
    }
}

/// A state that is healthy has neither an incident nor a descriptor that is
/// not active.
pub proof fn healthy_records_are_active(
    records: Seq<RecordModel>,
    bwatch: Result<StatusModel, Seq<char>>,
    i: int,
)
    requires
        all_healthy(records, bwatch),
        0 <= i < records.len(),
    ensures
        records[i].status == DescriptorStatus::Active,
        records[i].incident is None,
    decreases records.len(),
{
    if i < records.len() - 1 {
        assert(records.drop_last()[i] == records[i]);
        healthy_records_are_active(records.drop_last(), bwatch, i);
    }
}

/// A name under which samples of a family are told apart.
pub open spec fn is_label(name: Seq<char>) -> bool {
    name == "status"@ || name == "descriptor"@ || name == "code"@ || name == "operation"@
}

/// A sample has a number for its value, and texts under known names for labels.
pub open spec fn is_bounded_sample(sample: JsonModel) -> bool {
    &&& sample.field("value"@) matches Some(value) && is_numeric(value)
    &&& sample.field("labels"@) matches Some(JsonModel::Object(labels)) && forall|i: int|
        0 <= i < labels.len() ==> is_label((#[trigger] labels[i]).0) && labels[i].1 is Text
}

/// A family is a gauge or a counter of bounded samples.
pub open spec fn is_bounded_family(family: JsonModel) -> bool {
    &&& family.text_field("type"@) == Some("gauge"@) || family.text_field("type"@) == Some(
        "counter"@,
    )
    &&& family.list_field("samples"@) matches Some(samples) && forall|i: int|
        0 <= i < samples.len() ==> is_bounded_sample(#[trigger] samples[i])
}

/// A sample of a number with known labels is bounded.
proof fn sample_is_bounded(labels: Seq<(Seq<char>, JsonModel)>, value: JsonModel)
    requires
        is_numeric(value),
        forall|i: int|
            0 <= i < labels.len() ==> is_label((#[trigger] labels[i]).0) && labels[i].1 is Text,
    ensures
        is_bounded_sample(sample(labels, value)),
{
    reveal_strlit("labels");
    reveal_strlit("value");
    let fields = no_fields().push(("labels"@, JsonModel::Object(labels))).push(("value"@, value));
    assert("labels"@.len() != "value"@.len());
    named_field_at(fields, 0);
    named_field_at(fields, 1);
}

/// A family of bounded samples is bounded.
proof fn family_is_bounded(
    name: Seq<char>,
    help: Seq<char>,
    kind: Seq<char>,
    samples: Seq<JsonModel>,
)
    requires
        kind == "gauge"@ || kind == "counter"@,
        forall|i: int| 0 <= i < samples.len() ==> is_bounded_sample(#[trigger] samples[i]),
    ensures
        is_bounded_family(family(name, help, kind, JsonModel::List(samples))),
{
    reveal_strlit("name");
    reveal_strlit("help");
    reveal_strlit("type");
    reveal_strlit("samples");
    let fields = no_fields()
        .push(("name"@, JsonModel::Text(name)))
        .push(("help"@, JsonModel::Text(help)))
        .push(("type"@, JsonModel::Text(kind)))
        .push(("samples"@, JsonModel::List(samples)));
    assert("name"@[0] != "type"@[0] && "help"@[0] != "type"@[0]);
    assert("samples"@.len() == 7);
    named_field_at(fields, 2);
    named_field_at(fields, 3);
}

/// A family of one number is bounded.
proof fn single_is_bounded(name: Seq<char>, help: Seq<char>, kind: Seq<char>, value: JsonModel)
    requires
        kind == "gauge"@ || kind == "counter"@,
        is_numeric(value),
    ensures
        is_bounded_family(single(name, help, kind, value)),
{
    sample_is_bounded(no_fields(), value);
    family_is_bounded(name, help, kind, seq![sample(no_fields(), value)]);
}

/// The family of the descriptors is bounded.
proof fn descriptors_are_bounded(health: JsonModel)
    ensures
        is_bounded_family(metric_families(health)[1]),
{
    let samples = descriptor_samples(health);
    assert forall|i: int| 0 <= i < samples.len() implies is_bounded_sample(#[trigger] samples[i]) by {
        let status = if i == 0 {
            "active"@
        } else if i == 1 {
            "syncing"@
        } else {
            "deleting"@
        };
        let labels = no_fields().push(("status"@, JsonModel::Text(status)));
        assert(samples[i] == status_sample(health, status));
        sample_is_bounded(labels, number_at(health, "descriptors"@, status));
    }
    family_is_bounded(
        "descriptors"@,
        "Registered Tracker descriptors by lifecycle state."@,
        "gauge"@,
        samples,
    );
}

/// The family of the incidents is bounded.
proof fn incidents_are_bounded(health: JsonModel)
    ensures
        is_bounded_family(metric_families(health)[3]),
{
    let incidents = incidents_in(health);
    let samples = incident_samples(incidents);
    assert forall|i: int| 0 <= i < samples.len() implies is_bounded_sample(#[trigger] samples[i]) by {
        let incident = incidents[i];
        assert(samples[i] == incident_sample(incident));
        let labels = no_fields()
            .push(("descriptor"@, label_of(incident, "descriptor"@)))
            .push(("code"@, label_of(incident, "code"@)))
            .push(("operation"@, label_of(incident, "operation"@)));
        assert(labels[0].0 == "descriptor"@);
        assert(labels[1].0 == "code"@);
        assert(labels[2].0 == "operation"@);
        sample_is_bounded(labels, JsonModel::Number(1));
    }
    family_is_bounded(
        "incident"@,
        "Unresolved Tracker incidents by descriptor and operation."@,
        "gauge"@,
        samples,
    );
}

/// The metrics are of version one in the namespace of the tracker, and all
/// their families are gauges and counters of numbers, whose labels are the
/// names, codes and operations of incidents and the statuses of descriptors:
/// no owner, script, outpoint or message is a label.
pub proof fn metrics_are_bounded(health: JsonModel)
    ensures
        metrics_of(health).number_field("version"@) == Some(1u64),
        metrics_of(health).text_field("namespace"@) == Some("tracker"@),
        metrics_of(health).list_field("families"@) == Some(metric_families(health)),
        forall|i: int|
            0 <= i < metric_families(health).len() ==> is_bounded_family(
                #[trigger] metric_families(health)[i],
            ),
{
    reveal_strlit("version");
    reveal_strlit("namespace");
    reveal_strlit("families");
    let fields = no_fields()
        .push(("version"@, JsonModel::Number(1)))
        .push(("namespace"@, JsonModel::Text("tracker"@)))
        .push(("families"@, JsonModel::List(metric_families(health))));
    assert("version"@.len() == 7 && "namespace"@.len() == 9 && "families"@.len() == 8);
    named_field_at(fields, 0);
    named_field_at(fields, 1);
    named_field_at(fields, 2);
    let families = metric_families(health);
    assert forall|i: int| 0 <= i < families.len() implies is_bounded_family(
        #[trigger] families[i],
    ) by {
        if i == 1 {
            descriptors_are_bounded(health);
        } else if i == 3 {
            incidents_are_bounded(health);
        } else {
            assert(exists|name: Seq<char>, help: Seq<char>, kind: Seq<char>, value: JsonModel|
                families[i] == single(name, help, kind, value) && is_numeric(value) && (kind
                    == "gauge"@ || kind == "counter"@));
            let (name, help, kind, value) = choose|
                name: Seq<char>,
                help: Seq<char>,
                kind: Seq<char>,
                value: JsonModel,
            |
                families[i] == single(name, help, kind, value) && is_numeric(value) && (kind
                    == "gauge"@ || kind == "counter"@);
            single_is_bounded(name, help, kind, value);
        }
    }
}

/// Records are counted one by one, each under its status.
pub proof fn records_are_counted(
    records: Seq<RecordModel>,
    record: RecordModel,
    status: DescriptorStatus,
)
    ensures
        count_status(Seq::empty(), status) == 0,
        count_pending(Seq::empty()) == 0,
        count_status(records.push(record), status) == count_status(records, status) + (
        if record.status == status {
            1nat
        } else {
            0nat
        }),
        count_pending(records.push(record)) == count_pending(records)
            + record.pending_movements.dom().len(),
        count_status(records, DescriptorStatus::Active) + count_status(
            records,
            DescriptorStatus::Syncing,
        ) + count_status(records, DescriptorStatus::Deleting) == records.len(),
    decreases records.len(),
{
    assert(records.push(record).drop_last() =~= records);
    if records.len() > 0 {
        records_are_counted(records.drop_last(), records.last(), status);
    }
}

/// A record is without a status that none of its row has.
proof fn no_status_is_counted(records: Seq<RecordModel>, status: DescriptorStatus)
    ensures
        count_status(records, status) == 0 <==> (forall|i: int|
            0 <= i < records.len() ==> (#[trigger] records[i]).status != status),
    decreases records.len(),
{
    if records.len() > 0 {
        no_status_is_counted(records.drop_last(), status);
        assert(records.last() == records[records.len() - 1]);
        if forall|i: int|
            0 <= i < records.drop_last().len() ==> (#[trigger] records.drop_last()[i]).status
                != status {
            assert forall|i: int|
                0 <= i < records.len() && i != records.len() - 1 implies (#[trigger] records[i]).status
                != status by {
                assert(records.drop_last()[i] == records[i]);
            }
        } else {
            let i = choose|i: int|
                0 <= i < records.drop_last().len() && (#[trigger] records.drop_last()[i]).status
                    == status;
            assert(records[i].status == status);
        }
    }
}

/// Nothing is shown of the incidents of records that have none.
proof fn no_incident_is_shown(records: Seq<RecordModel>)
    ensures
        incidents_shown(records).len() == 0 <==> (forall|i: int|
            0 <= i < records.len() ==> (#[trigger] records[i]).incident is None),
    decreases records.len(),
{
    if records.len() > 0 {
        no_incident_is_shown(records.drop_last());
        assert(records.last() == records[records.len() - 1]);
        if forall|i: int|
            0 <= i < records.drop_last().len() ==> (#[trigger] records.drop_last()[i]).incident
                is None {
            assert forall|i: int|
                0 <= i < records.len() && i != records.len() - 1 implies (#[trigger] records[
                i]).incident is None by {
                assert(records.drop_last()[i] == records[i]);
            }
        } else {
            let i = choose|i: int|
                0 <= i < records.drop_last().len() && !((#[trigger] records.drop_last()[i]).incident
                    is None);
            assert(!(records[i].incident is None));
        }
    }
}

/// All is healthy exactly where every descriptor is active and has no incident, and
/// bwatch answers that it is on, has caught up and has met no failure.
pub proof fn health_is_of_every_descriptor_and_bwatch(
    records: Seq<RecordModel>,
    bwatch: Result<StatusModel, Seq<char>>,
)
    ensures
        all_healthy(records, bwatch) <==> {
            &&& forall|i: int|
                0 <= i < records.len() ==> (#[trigger] records[i]).status is Active
                    && records[i].incident is None
            &&& bwatch is Ok
            &&& bwatch->Ok_0.enabled
            &&& bwatch->Ok_0.caught_up == Some(true)
            &&& bwatch->Ok_0.last_poll_error is None
            &&& bwatch->Ok_0.last_rescan_error is None
        },
{
    no_incident_is_shown(records);
    no_status_is_counted(records, DescriptorStatus::Syncing);
    no_status_is_counted(records, DescriptorStatus::Deleting);
}

/// The incident of each record that has one is shown, with the name and the status
/// of the record.
pub proof fn incidents_of_records_are_shown(records: Seq<RecordModel>, i: int)
    requires
        0 <= i < records.len(),
        records[i].incident is Some,
    ensures
        exists|j: int|
            0 <= j < incidents_shown(records).len() && is_incident_of(
                #[trigger] incidents_shown(records)[j],
                records[i],
            ),
    decreases records.len(),
{
    let rest = incidents_shown(records.drop_last());
    if i == records.len() - 1 {
        shown_incident_names_its_record(records[i]);
        assert(is_incident_of(incidents_shown(records)[rest.len() as int], records[i]));
    } else {
        incidents_of_records_are_shown(records.drop_last(), i);
        let j = choose|j: int|
            0 <= j < rest.len() && is_incident_of(#[trigger] rest[j], records.drop_last()[i]);
        assert(incidents_shown(records)[j] == rest[j]);
    }
}

/// What is shown of an incident is that of a record.
pub open spec fn is_incident_of(shown: JsonModel, record: RecordModel) -> bool {
    &&& record.incident is Some
    &&& shown.text_field("descriptor"@) == Some(record.config.name)
    &&& shown.text_field("status"@) == Some(status_text(record.status))
    &&& shown.text_field("code"@) == Some(record.incident->Some_0.code)
    &&& shown.text_field("operation"@) == Some(record.incident->Some_0.operation)
    &&& shown.text_field("message"@) == Some(record.incident->Some_0.message)
    &&& shown.number_field("first_seen"@) == Some(record.incident->Some_0.first_seen)
    &&& shown.number_field("last_seen"@) == Some(record.incident->Some_0.last_seen)
    &&& shown.number_field("retry_count"@) == Some(record.incident->Some_0.retry_count)
    &&& shown.field("operator_action_required"@) == Some(
        JsonModel::Bool(record.incident->Some_0.operator_action_required),
    )
}

/// The incident of a record is shown under the record's name.
proof fn shown_incident_names_its_record(record: RecordModel)
    requires
        record.incident is Some,
    ensures
        is_incident_of(incident_shown(record, record.incident->Some_0), record),
{
    reveal_strlit("descriptor");
    reveal_strlit("status");
    reveal_strlit("code");
    reveal_strlit("operation");
    reveal_strlit("message");
    reveal_strlit("first_seen");
    reveal_strlit("last_seen");
    reveal_strlit("retry_count");
    reveal_strlit("operator_action_required");
    assert("descriptor"@.len() == 10);
    assert("status"@.len() == 6);
    assert("code"@.len() == 4);
    assert("operation"@.len() == 9);
    assert("message"@.len() == 7);
    assert("first_seen"@.len() == 10);
    assert("last_seen"@.len() == 9);
    assert("retry_count"@.len() == 11);
    assert("operator_action_required"@.len() == 24);
    assert("first_seen"@[0] == 'f');
    assert("descriptor"@[0] == 'd');
    assert("last_seen"@[0] == 'l');
    assert("operation"@[0] == 'o');
    let fields = incident_shown(record, record.incident->Some_0)->Object_0;
    named_field_at(fields, 0);
    named_field_at(fields, 1);
    named_field_at(fields, 2);
    named_field_at(fields, 3);
    named_field_at(fields, 4);
    named_field_at(fields, 5);
    named_field_at(fields, 6);
    named_field_at(fields, 7);
    named_field_at(fields, 8);
}

/// The sections of a report of health are found under their names.
proof fn sections_of_health(state: StateModel, bwatch: Result<StatusModel, Seq<char>>)
    ensures
        ({
            let health = health_of(state, bwatch);
            let records = sorted_values(state.inner.records);
            let descriptors = health.field("descriptors"@);
            let counters = health.field("counters"@);
            &&& health.field("healthy"@) == Some(JsonModel::Bool(all_healthy(records, bwatch)))
            &&& health.list_field("incidents"@) == Some(incidents_shown(records))
            &&& health.field("bwatch"@) == Some(bwatch_shown(bwatch))
            &&& descriptors is Some && descriptors->Some_0 is Object
            &&& counters is Some && counters->Some_0 is Object
            &&& descriptors->Some_0 == health->Object_0[1].1
            &&& counters->Some_0 == health->Object_0[4].1
        }),
{
    reveal_strlit("healthy");
    reveal_strlit("descriptors");
    reveal_strlit("incidents");
    reveal_strlit("bwatch");
    reveal_strlit("counters");
    assert("healthy"@.len() == 7);
    assert("descriptors"@.len() == 11);
    assert("incidents"@.len() == 9);
    assert("bwatch"@.len() == 6);
    assert("counters"@.len() == 8);
    let fields = health_of(state, bwatch)->Object_0;
    named_field_at(fields, 0);
    named_field_at(fields, 1);
    named_field_at(fields, 2);
    named_field_at(fields, 3);
    named_field_at(fields, 4);
}

/// A report of health says whether all is healthy, counts the descriptors by their
/// status and the movements that wait, and gives the failures of the process.
pub proof fn health_says_what_is_counted(state: StateModel, bwatch: Result<StatusModel, Seq<char>>)
    ensures
        ({
            let health = health_of(state, bwatch);
            let records = sorted_values(state.inner.records);
            let descriptors = health.field("descriptors"@)->Some_0;
            let counters = health.field("counters"@)->Some_0;
            &&& health.field("healthy"@) == Some(JsonModel::Bool(all_healthy(records, bwatch)))
            &&& health.list_field("incidents"@) == Some(incidents_shown(records))
            &&& health.field("descriptors"@) is Some
            &&& health.field("counters"@) is Some
            &&& descriptors.number_field("total"@) == Some(records.len() as u64)
            &&& descriptors.number_field("active"@) == Some(
                count_status(records, DescriptorStatus::Active) as u64,
            )
            &&& descriptors.number_field("syncing"@) == Some(
                count_status(records, DescriptorStatus::Syncing) as u64,
            )
            &&& descriptors.number_field("deleting"@) == Some(
                count_status(records, DescriptorStatus::Deleting) as u64,
            )
            &&& count_pending(records) <= u64::MAX ==> descriptors.number_field(
                "pending_movements"@,
            ) == Some(count_pending(records) as u64)
            &&& counters.number_field("reconciliation_failures"@) == Some(
                state.inner.reconciliation_failures,
            )
            &&& counters.number_field("bookkeeper_failures"@) == Some(
                state.inner.bookkeeper_failures,
            )
            &&& counters.number_field("reorgs"@) == Some(state.inner.reorgs)
        }),
{
    sections_of_health(state, bwatch);
    reveal_strlit("total");
    reveal_strlit("active");
    reveal_strlit("syncing");
    reveal_strlit("deleting");
    reveal_strlit("pending_movements");
    reveal_strlit("reconciliation_failures");
    reveal_strlit("bookkeeper_failures");
    reveal_strlit("reorgs");
    assert("total"@.len() == 5);
    assert("active"@.len() == 6);
    assert("syncing"@.len() == 7);
    assert("deleting"@.len() == 8);
    assert("pending_movements"@.len() == 17);
    assert("reconciliation_failures"@.len() == 23);
    assert("bookkeeper_failures"@.len() == 19);
    assert("reorgs"@.len() == 6);
    assert("reorgs"@[0] == 'r');
    assert("active"@[0] == 'a');
    let descriptors = health_of(state, bwatch).field("descriptors"@)->Some_0->Object_0;
    named_field_at(descriptors, 0);
    named_field_at(descriptors, 1);
    named_field_at(descriptors, 2);
    named_field_at(descriptors, 3);
    named_field_at(descriptors, 4);
    let counters = health_of(state, bwatch).field("counters"@)->Some_0->Object_0;
    named_field_at(counters, 0);
    named_field_at(counters, 1);
    named_field_at(counters, 2);
}

/// A report of health holds what bwatch says of itself, or why it could not be asked.
pub proof fn health_says_what_bwatch_says(
    state: StateModel,
    bwatch: Result<StatusModel, Seq<char>>,
)
    ensures
        ({
            let shown = health_of(state, bwatch).field("bwatch"@);
            &&& bwatch matches Ok(status) ==> shown == Some(BwatchStatus::shown(status))
            &&& bwatch matches Err(message) ==> shown is Some && shown->Some_0.text_field(
                "error"@,
            ) == Some(message)
        }),
{
    sections_of_health(state, bwatch);
    if bwatch is Err {
        named_field_at(bwatch_shown(bwatch)->Object_0, 0);
    }
}

/// A family has a name and a type, and one sample of a value.
pub open spec fn family_tells(
    family: JsonModel,
    name: Seq<char>,
    kind: Seq<char>,
    value: JsonModel,
) -> bool {
    &&& family.text_field("name"@) == Some(name)
    &&& family.text_field("type"@) == Some(kind)
    &&& family.list_field("samples"@) matches Some(samples) && samples.len() == 1
        && samples[0].field("value"@) == Some(value)
}

/// A family of one sample tells the value of the sample.
proof fn single_tells(name: Seq<char>, help: Seq<char>, kind: Seq<char>, value: JsonModel)
    ensures
        family_tells(single(name, help, kind, value), name, kind, value),
{
    reveal_strlit("name");
    reveal_strlit("help");
    reveal_strlit("type");
    reveal_strlit("samples");
    reveal_strlit("labels");
    reveal_strlit("value");
    assert("name"@.len() == 4);
    assert("help"@.len() == 4);
    assert("type"@.len() == 4);
    assert("samples"@.len() == 7);
    assert("labels"@.len() == 6);
    assert("value"@.len() == 5);
    assert("help"@[0] == 'h');
    assert("name"@[0] == 'n');
    assert("type"@[0] == 't');
    let fields = single(name, help, kind, value)->Object_0;
    named_field_at(fields, 0);
    named_field_at(fields, 2);
    named_field_at(fields, 3);
    let only = sample(no_fields(), value)->Object_0;
    named_field_at(only, 1);
}

/// The metrics tell whether all is healthy, how many movements wait, and the
/// failures and reorganisations of the process, as the report of health has them.
pub proof fn metrics_tell_the_counts(health: JsonModel, n: u64)
    ensures
        ({
            let families = metric_families(health);
            let descriptors = health.field("descriptors"@);
            let counters = health.field("counters"@);
            &&& families.len() == 16
            &&& health.field("healthy"@) == Some(JsonModel::Bool(true)) ==> family_tells(
                families[0],
                "healthy"@,
                "gauge"@,
                JsonModel::Number(1),
            )
            &&& health.field("healthy"@) != Some(JsonModel::Bool(true)) ==> family_tells(
                families[0],
                "healthy"@,
                "gauge"@,
                JsonModel::Number(0),
            )
            &&& descriptors is Some && descriptors->Some_0.number_field("pending_movements"@)
                == Some(n) ==> family_tells(
                families[2],
                "pending_movements"@,
                "gauge"@,
                JsonModel::Number(n),
            )
            &&& counters is Some && counters->Some_0.number_field("reconciliation_failures"@)
                == Some(n) ==> family_tells(
                families[13],
                "reconciliation_failures_total"@,
                "counter"@,
                JsonModel::Number(n),
            )
            &&& counters is Some && counters->Some_0.number_field("bookkeeper_failures"@) == Some(
                n,
            ) ==> family_tells(
                families[14],
                "bookkeeper_failures_total"@,
                "counter"@,
                JsonModel::Number(n),
            )
            &&& counters is Some && counters->Some_0.number_field("reorgs"@) == Some(n)
                ==> family_tells(
                families[15],
                "reorgs_total"@,
                "counter"@,
                JsonModel::Number(n),
            )
        }),
{
    single_tells(
        "healthy"@,
        "Whether Tracker, its descriptors, and bwatch are healthy."@,
        "gauge"@,
        JsonModel::Number(
            if is_healthy(health) {
                1
            } else {
                0
            },
        ),
    );
    single_tells(
        "pending_movements"@,
        "Bookkeeper movements waiting for their confirmation depth."@,
        "gauge"@,
        number_at(health, "descriptors"@, "pending_movements"@),
    );
    single_tells(
        "reconciliation_failures_total"@,
        "Tracker watch reconciliation failures in this process."@,
        "counter"@,
        number_at(health, "counters"@, "reconciliation_failures"@),
    );
    single_tells(
        "bookkeeper_failures_total"@,
        "Tracker Bookkeeper delivery failures in this process."@,
        "counter"@,
        number_at(health, "counters"@, "bookkeeper_failures"@),
    );
    single_tells(
        "reorgs_total"@,
        "Chain reorganizations handled by Tracker in this process."@,
        "counter"@,
        number_at(health, "counters"@, "reorgs"@),
    );
}

/// The metrics tell how far bwatch is, and what its scans have done: each sum is
/// over all scans, and the progress is the processed part of the blocks.
pub proof fn metrics_tell_the_scans(health: JsonModel, n: u64)
    requires
        sums_fit(health),
    ensures
        ({
            let families = metric_families(health);
            let rescans = rescans_in(health);
            let processed = rescan_sum(rescans, "blocks_processed"@);
            let total = rescan_sum(rescans, "blocks_total"@);
            let bwatch = health.field("bwatch"@);
            &&& bwatch is Some && bwatch->Some_0.number_field("current_height"@) == Some(n)
                ==> family_tells(
                families[4],
                "bwatch_height"@,
                "gauge"@,
                JsonModel::Number(n),
            )
            &&& bwatch is Some && bwatch->Some_0.number_field("lag"@) == Some(n) ==> family_tells(
                families[5],
                "bwatch_lag_blocks"@,
                "gauge"@,
                JsonModel::Number(n),
            )
            &&& rescans.len() == n ==> family_tells(
                families[6],
                "bwatch_active_rescans"@,
                "gauge"@,
                JsonModel::Number(n),
            )
            &&& processed == n ==> family_tells(
                families[7],
                "bwatch_rescan_blocks_processed"@,
                "gauge"@,
                JsonModel::Number(n),
            )
            &&& total == n ==> family_tells(
                families[8],
                "bwatch_rescan_blocks_total"@,
                "gauge"@,
                JsonModel::Number(n),
            )
            &&& total > 0 ==> family_tells(
                families[9],
                "bwatch_rescan_progress_ratio"@,
                "gauge"@,
                JsonModel::Ratio(processed as u64, total as u64),
            )
            &&& total == 0 ==> family_tells(
                families[9],
                "bwatch_rescan_progress_ratio"@,
                "gauge"@,
                JsonModel::Ratio(0, 1),
            )
            &&& rescan_sum(rescans, "script_matches_found"@) == n ==> family_tells(
                families[10],
                "bwatch_rescan_script_matches_found"@,
                "gauge"@,
                JsonModel::Number(n),
            )
            &&& rescan_sum(rescans, "outpoint_matches_found"@) == n ==> family_tells(
                families[11],
                "bwatch_rescan_outpoint_matches_found"@,
                "gauge"@,
                JsonModel::Number(n),
            )
            &&& rescan_sum(rescans, "outpoints_followed"@) == n ==> family_tells(
                families[12],
                "bwatch_rescan_outpoints_followed"@,
                "gauge"@,
                JsonModel::Number(n),
            )
        }),
{
    let rescans = rescans_in(health);
    single_tells(
        "bwatch_height"@,
        "Last block height processed by bwatch."@,
        "gauge"@,
        number_at(health, "bwatch"@, "current_height"@),
    );
    single_tells(
        "bwatch_lag_blocks"@,
        "Number of blocks bwatch is behind the chain tip."@,
        "gauge"@,
        number_at(health, "bwatch"@, "lag"@),
    );
    single_tells(
        "bwatch_active_rescans"@,
        "Number of historical bwatch rescans currently in progress."@,
        "gauge"@,
        JsonModel::Number(rescans.len() as u64),
    );
    single_tells(
        "bwatch_rescan_blocks_processed"@,
        "Blocks processed across active historical bwatch rescans."@,
        "gauge"@,
        JsonModel::Number(rescan_sum(rescans, "blocks_processed"@) as u64),
    );
    single_tells(
        "bwatch_rescan_blocks_total"@,
        "Total blocks across active historical bwatch rescans."@,
        "gauge"@,
        JsonModel::Number(rescan_sum(rescans, "blocks_total"@) as u64),
    );
    single_tells(
        "bwatch_rescan_progress_ratio"@,
        "Aggregate completion ratio across active historical bwatch rescans."@,
        "gauge"@,
        progress_ratio(rescans),
    );
    single_tells(
        "bwatch_rescan_script_matches_found"@,
        "Descriptor outputs found across active historical bwatch rescans."@,
        "gauge"@,
        JsonModel::Number(rescan_sum(rescans, "script_matches_found"@) as u64),
    );
    single_tells(
        "bwatch_rescan_outpoint_matches_found"@,
        "Spending inputs found across active historical bwatch rescans."@,
        "gauge"@,
        JsonModel::Number(rescan_sum(rescans, "outpoint_matches_found"@) as u64),
    );
    single_tells(
        "bwatch_rescan_outpoints_followed"@,
        "Unique matched outputs followed across active historical bwatch rescans."@,
        "gauge"@,
        JsonModel::Number(rescan_sum(rescans, "outpoints_followed"@) as u64),
    );
}

/// Scans are summed up one by one; one without a number counts for nothing.
pub proof fn scans_are_summed_up(rescans: Seq<JsonModel>, rescan: JsonModel, name: Seq<char>)
    ensures
        rescan_sum(Seq::empty(), name) == 0,
        rescan.number_field(name) matches Some(n) ==> rescan_sum(rescans.push(rescan), name)
            == rescan_sum(rescans, name) + n,
        rescan.number_field(name) is None ==> rescan_sum(rescans.push(rescan), name) == rescan_sum(
            rescans,
            name,
        ),
{
    assert(rescans.push(rescan).drop_last() =~= rescans);
}

/// The metrics take the scans from what bwatch says, and the incidents from those
/// that the report names.
pub proof fn metrics_are_of_the_report(state: StateModel, bwatch: Result<StatusModel, Seq<char>>)
    ensures
        bwatch matches Ok(status) ==> {
            &&& rescans_in(health_of(state, bwatch)).len() == status.active_rescans.len()
            &&& forall|i: int|
                0 <= i < status.active_rescans.len() ==> (#[trigger] rescans_in(
                    health_of(state, bwatch),
                )[i]) == BwatchRescan::shown(status.active_rescans[i])
        },
        bwatch is Err ==> rescans_in(health_of(state, bwatch)).len() == 0,
        incidents_in(health_of(state, bwatch)) == incidents_shown(
            sorted_values(state.inner.records),
        ),
{
    sections_of_health(state, bwatch);
    match bwatch {
        Ok(status) => {
            shown_status_is_as_it_is(status, 0);
            assert forall|i: int| 0 <= i < status.active_rescans.len() implies (
            #[trigger] rescans_in(health_of(state, bwatch))[i]) == BwatchRescan::shown(
                status.active_rescans[i],
            ) by {
                shown_status_is_as_it_is(status, i);
            }
        },
        Err(_) => {
            reveal_strlit("error");
            reveal_strlit("active_rescans");
            assert("error"@.len() == 5);
            assert("active_rescans"@.len() == 14);
            no_field_of_a_name(bwatch_shown(bwatch)->Object_0, "active_rescans"@);
        },
    }
}

/// Each incident of a report is one sample of value one, labelled with the
/// descriptor, the code and the operation, and each status one with its count.
pub proof fn metrics_label_incidents_and_statuses(health: JsonModel, i: int)
    ensures
        ({
            let incidents = metric_families(health)[3].list_field("samples"@);
            let statuses = metric_families(health)[1].list_field("samples"@);
            &&& metric_families(health)[3].text_field("name"@) == Some("incident"@)
            &&& metric_families(health)[1].text_field("name"@) == Some("descriptors"@)
            &&& incidents is Some && incidents->Some_0.len() == incidents_in(health).len()
            &&& 0 <= i < incidents_in(health).len() ==> is_sample_of_incident(
                incidents->Some_0[i],
                incidents_in(health)[i],
            )
            &&& statuses is Some && statuses->Some_0.len() == 3
            &&& is_sample_of_status(statuses->Some_0[0], health, "active"@)
            &&& is_sample_of_status(statuses->Some_0[1], health, "syncing"@)
            &&& is_sample_of_status(statuses->Some_0[2], health, "deleting"@)
        }),
{
    reveal_strlit("name");
    reveal_strlit("help");
    reveal_strlit("type");
    reveal_strlit("samples");
    reveal_strlit("labels");
    reveal_strlit("value");
    reveal_strlit("descriptor");
    reveal_strlit("code");
    reveal_strlit("operation");
    assert("name"@.len() == 4);
    assert("help"@.len() == 4);
    assert("type"@.len() == 4);
    assert("samples"@.len() == 7);
    assert("labels"@.len() == 6);
    assert("value"@.len() == 5);
    assert("descriptor"@.len() == 10);
    assert("code"@.len() == 4);
    assert("operation"@.len() == 9);
    assert("help"@[0] == 'h');
    assert("name"@[0] == 'n');
    assert("type"@[0] == 't');
    assert("code"@[0] == 'c');
    let incident_fields = metric_families(health)[3]->Object_0;
    named_field_at(incident_fields, 0);
    named_field_at(incident_fields, 3);
    let status_fields = metric_families(health)[1]->Object_0;
    named_field_at(status_fields, 0);
    named_field_at(status_fields, 3);
    if 0 <= i < incidents_in(health).len() {
        let labelled = incident_sample(incidents_in(health)[i])->Object_0;
        named_field_at(labelled, 0);
        named_field_at(labelled, 1);
        let labels = labelled[0].1->Object_0;
        named_field_at(labels, 0);
        named_field_at(labels, 1);
        named_field_at(labels, 2);
    }
    status_is_sampled(health, "active"@);
    status_is_sampled(health, "syncing"@);
    status_is_sampled(health, "deleting"@);
}

/// The sample of a status has the count of the report.
proof fn status_is_sampled(health: JsonModel, status: Seq<char>)
    ensures
        is_sample_of_status(status_sample(health, status), health, status),
{
    reveal_strlit("labels");
    reveal_strlit("value");
    assert("labels"@.len() == 6);
    assert("value"@.len() == 5);
    let fields = status_sample(health, status)->Object_0;
    named_field_at(fields, 0);
    named_field_at(fields, 1);
    named_field_at(fields[0].1->Object_0, 0);
}

/// A sample stands for an incident.
pub open spec fn is_sample_of_incident(sample: JsonModel, incident: JsonModel) -> bool {
    let labels = sample.field("labels"@);
    &&& sample.number_field("value"@) == Some(1u64)
    &&& labels is Some
    &&& incident.text_field("descriptor"@) is Some ==> labels->Some_0.text_field("descriptor"@)
        == incident.text_field("descriptor"@)
    &&& incident.text_field("code"@) is Some ==> labels->Some_0.text_field("code"@)
        == incident.text_field("code"@)
    &&& incident.text_field("operation"@) is Some ==> labels->Some_0.text_field("operation"@)
        == incident.text_field("operation"@)
}

/// A sample has the count that a report gives for a status.
pub open spec fn is_sample_of_status(
    sample: JsonModel,
    health: JsonModel,
    status: Seq<char>,
) -> bool {
    let labels = sample.field("labels"@);
    &&& labels is Some && labels->Some_0.text_field("status"@) == Some(status)
    &&& health.field("descriptors"@) is Some && health.field("descriptors"@)->Some_0.number_field(
        status,
    ) is Some ==> sample.number_field("value"@) == health.field(
        "descriptors"@,
    )->Some_0.number_field(status)
}

} // verus!
