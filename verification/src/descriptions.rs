//! How annotations become descriptions in Bookkeeper.

use crate::cln::{
    describe_utxo, description_call, description_is_told, is_text_row, text_list, text_list_json,
    CallModel, RpcCall,
};
use crate::error::{refusal_of, Refusal, RefusalModel, TrackerError};
use crate::json::{named_field_at, no_fields, opt_text, text_or_null, Fields, Json, JsonModel};
use crate::lifecycle::{known, known_record};
use crate::model::{DescriptorRecord, DescriptorStatus, RecordModel, TrackedUtxo, UtxoModel};
use crate::ordered::{models, push_contains, sorted_keys, sorted_keys_of, sorted_values, TextMap};
use crate::state::{AppState, StateModel};
use crate::text::{decimal_text, ends_with, finishes_with, parse_number, parsed_number, same_text};
use vstd::prelude::*;
use vstd::string::*;

verus! {

/// A text is an amount in millisatoshis of more than nothing.
pub open spec fn is_msat_text(text: Seq<char>) -> bool {
    finishes_with(text, "msat"@) && match parsed_number(
        text.take(text.len() - "msat"@.len()),
        u64::MAX as nat,
    ) {
        Some(amount) => amount > 0,
        None => false,
    }
}

/// A value is an amount of more than nothing: a number, a text of
/// millisatoshis, or an object with a number of millisatoshis.
pub open spec fn is_nonzero_amount(value: Option<JsonModel>) -> bool {
    match value {
        None => false,
        Some(value) => {
            ||| value.number() matches Some(amount) && amount > 0
            ||| value.text() matches Some(text) && is_msat_text(text)
            ||| value.number_field("msat"@) matches Some(amount) && amount > 0
        },
    }
}

/// Whether a text is an amount in millisatoshis of more than nothing.
fn msat_text_is_nonzero(text: &str) -> (r: bool)
    ensures
        r == is_msat_text(text@),
{
    if !ends_with(text, "msat") {
        return false;
    }
    let end = text.unicode_len() - "msat".unicode_len();
    let digits = text.substring_char(0, end);
    assert(digits@ =~= text@.take(text@.len() - "msat"@.len()));
    match parse_number(digits, u64::MAX) {
        Some(amount) => amount > 0,
        None => false,
    }
}

/// Whether a value is an amount of more than nothing.
pub fn json_msat_is_nonzero(value: Option<&Json>) -> (r: bool)
    ensures
        r == is_nonzero_amount(
            match value {
                Some(value) => Some(value@),
                None => None,
            },
        ),
{
    let value = match value {
        None => {
            return false;
        },
        Some(value) => value,
    };
    let number = match value.as_u64() {
        Some(amount) => amount > 0,
        None => false,
    };
    let text = match value.as_str() {
        Some(text) => msat_text_is_nonzero(text.as_str()),
        None => false,
    };
    let object = match value.get_u64("msat") {
        Some(amount) => amount > 0,
        None => false,
    };
    number || text || object
}

/// A description that Bookkeeper holds for an output, if any.
#[derive(Clone, Debug, PartialEq, Eq)]
pub struct Description {
    pub text: Option<String>,
}

impl View for Description {
    type V = Option<Seq<char>>;

    open spec fn view(&self) -> Option<Seq<char>> {
        opt_text(self.text)
    }
}

/// What the first events of an account say of the descriptions of the outputs
/// that it received. A later event counts.
pub open spec fn event_descriptions(events: Seq<JsonModel>) -> Map<Seq<char>, Option<Seq<char>>>
    decreases events.len(),
{
    if events.len() == 0 {
        Map::empty()
    } else {
        let rest = event_descriptions(events.drop_last());
        let event = events.last();
        match event.text_field("outpoint"@) {
            Some(outpoint) => if is_nonzero_amount(event.field("credit_msat"@)) {
                rest.insert(outpoint, event.text_field("description"@))
            } else {
                rest
            },
            None => rest,
        }
    }
}

/// What the events of an account say of descriptions.
fn collect_descriptions(events: &Vec<Json>) -> (r: TextMap<Description>)
    ensures
        r@ == event_descriptions(models(events@)),
{
    let ghost all = models(events@);
    let mut r: TextMap<Description> = TextMap::new();
    let mut i: usize = 0;
    while i < events.len()
        invariant
            i <= events.len(),
            all == models(events@),
            r@ == event_descriptions(all.take(i as int)),
        decreases events.len() - i,
    {
        let event = &events[i];
        assert(all[i as int] == event@);
        assert(all.take(i + 1).drop_last() =~= all.take(i as int));
        if json_msat_is_nonzero(event.get("credit_msat")) {
            match event.get_str("outpoint") {
                Some(outpoint) => {
                    let text = match event.get_str("description") {
                        Some(text) => Some(text.clone()),
                        None => None,
                    };
                    r.insert(outpoint.clone(), Description { text });
                },
                None => {},
            }
        }
        i = i + 1;
    }
    assert(all.take(i as int) =~= all);
    r
}

/// What becomes of the description of an output.
#[derive(Clone, Copy, Debug, PartialEq, Eq, Structural)]
pub enum Outcome {
    /// The output has no annotation.
    Unannotated,
    /// Bookkeeper has no event for the output.
    Missing,
    /// The description is already the annotation.
    Unchanged,
    /// There is another description, which is kept.
    Conflict,
    /// The annotation becomes the description.
    Synced,
}

/// What becomes of the description of an output.
pub open spec fn outcome_of(
    output: UtxoModel,
    descriptions: Map<Seq<char>, Option<Seq<char>>>,
    overwrite: bool,
) -> Outcome {
    match output.annotation {
        None => Outcome::Unannotated,
        Some(annotation) => if !descriptions.contains_key(output.outpoint) {
            Outcome::Missing
        } else if descriptions[output.outpoint] == Some(annotation) {
            Outcome::Unchanged
        } else if descriptions[output.outpoint] is Some && !overwrite {
            Outcome::Conflict
        } else {
            Outcome::Synced
        },
    }
}

/// What becomes of the description of an output.
fn decide(output: &TrackedUtxo, descriptions: &TextMap<Description>, overwrite: bool) -> (r:
    Outcome)
    ensures
        r == outcome_of(output@, descriptions@, overwrite),
{
    let annotation = match &output.annotation {
        None => {
            return Outcome::Unannotated;
        },
        Some(annotation) => annotation,
    };
    match descriptions.get(output.outpoint.as_str()) {
        None => Outcome::Missing,
        Some(current) => match &current.text {
            None => Outcome::Synced,
            Some(text) => if same_text(text.as_str(), annotation.as_str()) {
                Outcome::Unchanged
            } else if overwrite {
                Outcome::Synced
            } else {
                Outcome::Conflict
            },
        },
    }
}

/// The outpoints of the outputs of a row that have an outcome.
pub open spec fn outpoints_with(
    outputs: Seq<UtxoModel>,
    descriptions: Map<Seq<char>, Option<Seq<char>>>,
    overwrite: bool,
    outcome: Outcome,
) -> Seq<Seq<char>>
    decreases outputs.len(),
{
    if outputs.len() == 0 {
        Seq::empty()
    } else {
        let rest = outpoints_with(outputs.drop_last(), descriptions, overwrite, outcome);
        if outcome_of(outputs.last(), descriptions, overwrite) == outcome {
            rest.push(outputs.last().outpoint)
        } else {
            rest
        }
    }
}

/// The calls that make annotations of a row of outputs descriptions.
pub open spec fn sync_calls(
    outputs: Seq<UtxoModel>,
    descriptions: Map<Seq<char>, Option<Seq<char>>>,
    overwrite: bool,
) -> Seq<CallModel>
    decreases outputs.len(),
{
    if outputs.len() == 0 {
        Seq::empty()
    } else {
        let rest = sync_calls(outputs.drop_last(), descriptions, overwrite);
        let output = outputs.last();
        if outcome_of(output, descriptions, overwrite) == Outcome::Synced {
            rest.push(description_call(output.outpoint, output.annotation->Some_0))
        } else {
            rest
        }
    }
}

/// How a conflict is shown.
pub open spec fn conflict_shown(
    output: UtxoModel,
    descriptions: Map<Seq<char>, Option<Seq<char>>>,
) -> JsonModel {
    JsonModel::Object(
        no_fields()
            .push(("outpoint"@, JsonModel::Text(output.outpoint)))
            .push(("tracker_annotation"@, text_or_null(output.annotation)))
            .push(("bookkeeper_description"@, text_or_null(descriptions[output.outpoint]))),
    )
}

/// How the conflicts of a row of outputs are shown.
pub open spec fn conflicts_shown(
    outputs: Seq<UtxoModel>,
    descriptions: Map<Seq<char>, Option<Seq<char>>>,
    overwrite: bool,
) -> Seq<JsonModel>
    decreases outputs.len(),
{
    if outputs.len() == 0 {
        Seq::empty()
    } else {
        let rest = conflicts_shown(outputs.drop_last(), descriptions, overwrite);
        if outcome_of(outputs.last(), descriptions, overwrite) == Outcome::Conflict {
            rest.push(conflict_shown(outputs.last(), descriptions))
        } else {
            rest
        }
    }
}

/// The number of outputs of a row that have an annotation.
pub open spec fn count_annotated(outputs: Seq<UtxoModel>) -> nat
    decreases outputs.len(),
{
    if outputs.len() == 0 {
        0
    } else {
        count_annotated(outputs.drop_last()) + (if outputs.last().annotation is Some {
            1nat
        } else {
            0nat
        })
    }
}

/// What a synchronisation of descriptions comes to. The calls belong to the
/// outputs that are synced, one each.
#[derive(Debug)]
pub struct DescriptionPlan {
    pub calls: Vec<RpcCall>,
    pub synced: Vec<String>,
    pub unchanged: Vec<String>,
    pub conflicts: Vec<Json>,
    pub missing_events: Vec<String>,
    pub annotated: u64,
}

/// Whether the descriptions of a descriptor can be synchronised.
pub open spec fn describable(state: StateModel, name: Seq<char>) -> Result<
    RecordModel,
    RefusalModel,
> {
    if state.active_scans.contains_key(name) {
        Err(refusal_of(TrackerError::ScanActive, name))
    } else {
        match known(state, name) {
            Err(refusal) => Err(refusal),
            Ok(record) => if record.status == DescriptorStatus::Deleting {
                Err(refusal_of(TrackerError::BeingDeleted, name))
            } else {
                Ok(record)
            },
        }
    }
}

/// The record of a descriptor whose descriptions can be synchronised.
pub fn describable_record<'a>(state: &'a AppState, name: &str) -> (r: Result<
    &'a DescriptorRecord,
    Refusal,
>)
    ensures
        (match r {
            Ok(record) => Ok(record@),
            Err(e) => Err(e@),
        }) == describable(state@, name@),
{
    match state.ensure_no_active_scan(name) {
        Err(e) => {
            return Err(e);
        },
        Ok(_) => {},
    }
    match known_record(state, name) {
        Err(e) => Err(e),
        Ok(record) => if record.status == DescriptorStatus::Deleting {
            Err(Refusal::of(TrackerError::BeingDeleted, name))
        } else {
            Ok(record)
        },
    }
}

/// What a [`DescriptionPlan`] stands for.
#[verifier::ext_equal]
pub struct DescriptionModel {
    pub calls: Seq<CallModel>,
    pub synced: Seq<Seq<char>>,
    pub unchanged: Seq<Seq<char>>,
    pub conflicts: Seq<JsonModel>,
    pub missing_events: Seq<Seq<char>>,
    pub annotated: nat,
}

impl View for DescriptionPlan {
    type V = DescriptionModel;

    open spec fn view(&self) -> DescriptionModel {
        DescriptionModel {
            calls: models(self.calls@),
            synced: models(self.synced@),
            unchanged: models(self.unchanged@),
            conflicts: models(self.conflicts@),
            missing_events: models(self.missing_events@),
            annotated: self.annotated as nat,
        }
    }
}

/// The synchronisation of the descriptions of a record with the events that
/// Bookkeeper lists for its account.
pub open spec fn description_plan(
    record: RecordModel,
    events: Seq<JsonModel>,
    overwrite: bool,
) -> DescriptionModel {
    let outputs = sorted_values(record.utxos);
    let descriptions = event_descriptions(events);
    DescriptionModel {
        calls: sync_calls(outputs, descriptions, overwrite),
        synced: outpoints_with(outputs, descriptions, overwrite, Outcome::Synced),
        unchanged: outpoints_with(outputs, descriptions, overwrite, Outcome::Unchanged),
        conflicts: conflicts_shown(outputs, descriptions, overwrite),
        missing_events: outpoints_with(outputs, descriptions, overwrite, Outcome::Missing),
        annotated: count_annotated(outputs),
    }
}

/// Plans the synchronisation of the descriptions of a record with the events
/// that Bookkeeper lists for its account.
pub fn sync_descriptions(record: &DescriptorRecord, events: &Vec<Json>, overwrite: bool) -> (r:
    DescriptionPlan)
    ensures
        r@ == description_plan(record@, models(events@), overwrite),
{
    let descriptions = collect_descriptions(events);
    let ghost known = descriptions@;
    let ghost keys = sorted_keys(record.utxos@.dom());
    let ghost all = sorted_values(record.utxos@);
    let n = record.utxos.len();
    let mut calls: Vec<RpcCall> = Vec::new();
    let mut synced: Vec<String> = Vec::new();
    let mut unchanged: Vec<String> = Vec::new();
    let mut conflicts: Vec<Json> = Vec::new();
    let mut missing_events: Vec<String> = Vec::new();
    let mut annotated: u64 = 0;
    let mut i: usize = 0;
    assert(models(calls@) =~= Seq::<CallModel>::empty());
    assert(models(synced@) =~= Seq::<Seq<char>>::empty());
    assert(models(unchanged@) =~= Seq::<Seq<char>>::empty());
    assert(models(conflicts@) =~= Seq::<JsonModel>::empty());
    assert(models(missing_events@) =~= Seq::<Seq<char>>::empty());
    while i < n
        invariant
            i <= n,
            n == keys.len(),
            n == record.utxos@.dom().len(),
            keys == sorted_keys(record.utxos@.dom()),
            all == sorted_values(record.utxos@),
            known == descriptions@,
            models(calls@) == sync_calls(all.take(i as int), known, overwrite),
            models(synced@) == outpoints_with(
                all.take(i as int),
                known,
                overwrite,
                Outcome::Synced,
            ),
            models(unchanged@) == outpoints_with(
                all.take(i as int),
                known,
                overwrite,
                Outcome::Unchanged,
            ),
            models(missing_events@) == outpoints_with(
                all.take(i as int),
                known,
                overwrite,
                Outcome::Missing,
            ),
            models(conflicts@) == conflicts_shown(all.take(i as int), known, overwrite),
            annotated == count_annotated(all.take(i as int)),
            annotated <= i,
        decreases n - i,
    {
        let (_, output) = record.utxos.at(i);
        assert(all[i as int] == output@);
        assert(all.take(i + 1).drop_last() =~= all.take(i as int));
        if output.annotation.is_some() {
            annotated = annotated + 1;
        }
        match decide(output, &descriptions, overwrite) {
            Outcome::Unannotated => {},
            Outcome::Missing => {
                let ghost before = models(missing_events@);
                missing_events.push(output.outpoint.clone());
                assert(models(missing_events@) =~= before.push(output@.outpoint));
            },
            Outcome::Unchanged => {
                let ghost before = models(unchanged@);
                unchanged.push(output.outpoint.clone());
                assert(models(unchanged@) =~= before.push(output@.outpoint));
            },
            Outcome::Conflict => {
                let ghost before = models(conflicts@);
                let mut fields = Fields::new();
                fields.put_text("outpoint", output.outpoint.as_str());
                fields.put("tracker_annotation", Json::of_optional_text(&output.annotation));
                match descriptions.get(output.outpoint.as_str()) {
                    Some(current) => {
                        fields.put(
                            "bookkeeper_description",
                            Json::of_optional_text(&current.text),
                        );
                    },
                    None => {},
                }
                let shown = fields.done();
                conflicts.push(shown);
                assert(models(conflicts@) =~= before.push(shown@));
            },
            Outcome::Synced => {
                match &output.annotation {
                    Some(annotation) => {
                        let ghost before = models(calls@);
                        let call = describe_utxo(output.outpoint.as_str(), annotation.as_str());
                        calls.push(call);
                        assert(models(calls@) =~= before.push(call@));
                    },
                    None => {},
                }
                let ghost before = models(synced@);
                synced.push(output.outpoint.clone());
                assert(models(synced@) =~= before.push(output@.outpoint));
            },
        }
        i = i + 1;
    }
    assert(all.take(i as int) =~= all);
    DescriptionPlan { calls, synced, unchanged, conflicts, missing_events, annotated }
}

/// The answer to a synchronisation of descriptions.
pub open spec fn sync_shown(name: Seq<char>, overwrite: bool, plan: DescriptionModel) -> JsonModel {
    JsonModel::Object(
        no_fields()
            .push(("name"@, JsonModel::Text(name)))
            .push(("overwrite"@, JsonModel::Bool(overwrite)))
            .push(("annotated_utxos"@, JsonModel::Number(plan.annotated as u64)))
            .push(("synced"@, text_list(plan.synced)))
            .push(("unchanged"@, text_list(plan.unchanged)))
            .push(("conflicts"@, JsonModel::List(plan.conflicts)))
            .push(("missing_events"@, text_list(plan.missing_events))),
    )
}

/// The answer to a synchronisation of descriptions.
pub fn sync_view(name: &str, overwrite: bool, plan: DescriptionPlan) -> (r: Json)
    ensures
        r@ == sync_shown(name@, overwrite, plan@),
{
    let mut fields = Fields::new();
    fields.put_text("name", name);
    fields.put("overwrite", Json::Bool(overwrite));
    fields.put_number("annotated_utxos", plan.annotated);
    fields.put("synced", text_list_json(&plan.synced));
    fields.put("unchanged", text_list_json(&plan.unchanged));
    fields.put("conflicts", Json::of_list(plan.conflicts));
    fields.put("missing_events", text_list_json(&plan.missing_events));
    fields.done()
}

/// Each annotated output has one outcome: it is synced, unchanged, in conflict
/// or missing in Bookkeeper.
pub proof fn every_annotation_is_accounted_for(
    outputs: Seq<UtxoModel>,
    descriptions: Map<Seq<char>, Option<Seq<char>>>,
    overwrite: bool,
)
    ensures
        count_annotated(outputs) == outpoints_with(
            outputs,
            descriptions,
            overwrite,
            Outcome::Synced,
        ).len() + outpoints_with(outputs, descriptions, overwrite, Outcome::Unchanged).len()
            + conflicts_shown(outputs, descriptions, overwrite).len() + outpoints_with(
            outputs,
            descriptions,
            overwrite,
            Outcome::Missing,
        ).len(),
        overwrite ==> conflicts_shown(outputs, descriptions, overwrite).len() == 0,
    decreases outputs.len(),
{
    if outputs.len() > 0 {
        every_annotation_is_accounted_for(outputs.drop_last(), descriptions, overwrite);
    }
}

/// Once the annotation of an output is its description, nothing is left to do
/// for it.
pub proof fn synced_description_stays(
    output: UtxoModel,
    descriptions: Map<Seq<char>, Option<Seq<char>>>,
    overwrite: bool,
    again: bool,
)
    requires
        outcome_of(output, descriptions, overwrite) == Outcome::Synced,
    ensures
        outcome_of(
            output,
            descriptions.insert(output.outpoint, output.annotation),
            again,
        ) == Outcome::Unchanged,
{
}

/// An amount in millisatoshis counts exactly where it is more than nothing, as a
/// text, as a number or in an object.
pub proof fn amount_counts_where_it_is_more_than_nothing(amount: u64)
    ensures
        is_nonzero_amount(Some(JsonModel::Text(decimal_text(amount as nat) + "msat"@))) <==> amount
            > 0,
        is_nonzero_amount(Some(JsonModel::Number(amount))) <==> amount > 0,
        is_nonzero_amount(
            Some(JsonModel::Object(no_fields().push(("msat"@, JsonModel::Number(amount))))),
        ) <==> amount > 0,
        !is_nonzero_amount(None),
{
    let digits = decimal_text(amount as nat);
    let text = digits + "msat"@;
    crate::text::decimal_round_trip(amount as nat, u64::MAX as nat);
    assert(text.skip(text.len() - "msat"@.len()) =~= "msat"@);
    assert(text.take(text.len() - "msat"@.len()) =~= digits);
    named_field_at(no_fields().push(("msat"@, JsonModel::Number(amount))), 0);
}

/// An event is of an output that was received where it names the outpoint and
/// credits more than nothing.
pub open spec fn credits(event: JsonModel, outpoint: Seq<char>) -> bool {
    event.text_field("outpoint"@) == Some(outpoint) && is_nonzero_amount(
        event.field("credit_msat"@),
    )
}

/// Bookkeeper knows of an output exactly where an event credits it.
pub proof fn credited_outputs_are_known(events: Seq<JsonModel>, outpoint: Seq<char>)
    ensures
        event_descriptions(events).contains_key(outpoint) <==> exists|i: int|
            0 <= i < events.len() && credits(#[trigger] events[i], outpoint),
    decreases events.len(),
{
    if events.len() > 0 {
        let rest = events.drop_last();
        credited_outputs_are_known(rest, outpoint);
        let last = events.len() - 1;
        if credits(events[last], outpoint) {
            assert(event_descriptions(events).contains_key(outpoint));
        } else {
            assert(event_descriptions(events).contains_key(outpoint)
                == event_descriptions(rest).contains_key(outpoint));
            if event_descriptions(rest).contains_key(outpoint) {
                let i = choose|i: int| 0 <= i < rest.len() && credits(#[trigger] rest[i], outpoint);
                assert(events[i] == rest[i]);
            }
            if exists|i: int| 0 <= i < events.len() && credits(#[trigger] events[i], outpoint) {
                let i = choose|i: int|
                    0 <= i < events.len() && credits(#[trigger] events[i], outpoint);
                assert(rest[i] == events[i]);
            }
        }
    }
}

/// What Bookkeeper says of an output is what the last event says that credits it.
pub proof fn last_event_describes(events: Seq<JsonModel>, outpoint: Seq<char>, i: int)
    requires
        0 <= i < events.len(),
        credits(events[i], outpoint),
        forall|j: int| i < j < events.len() ==> !credits(#[trigger] events[j], outpoint),
    ensures
        event_descriptions(events)[outpoint] == events[i].text_field("description"@),
    decreases events.len(),
{
    let rest = events.drop_last();
    if i < rest.len() {
        assert(!credits(events[events.len() - 1], outpoint));
        assert(rest[i] == events[i]);
        assert forall|j: int| i < j < rest.len() implies !credits(#[trigger] rest[j], outpoint) by {
            assert(rest[j] == events[j]);
        }
        last_event_describes(rest, outpoint, i);
    }
}

/// The annotation of an output becomes its description where Bookkeeper knows the
/// output and has no other description, or another one that may be overwritten. A
/// description that must not be overwritten is in conflict, and one that is already
/// the annotation stays.
pub proof fn annotation_becomes_the_description(
    output: UtxoModel,
    descriptions: Map<Seq<char>, Option<Seq<char>>>,
    overwrite: bool,
)
    ensures
        ({
            let outcome = outcome_of(output, descriptions, overwrite);
            let known = descriptions.contains_key(output.outpoint);
            let current = descriptions[output.outpoint];
            &&& outcome == Outcome::Unannotated <==> output.annotation is None
            &&& outcome == Outcome::Missing <==> output.annotation is Some && !known
            &&& outcome == Outcome::Unchanged <==> output.annotation is Some && known && current
                == output.annotation
            &&& outcome == Outcome::Conflict <==> output.annotation is Some && known && current
                is Some && current != output.annotation && !overwrite
            &&& outcome == Outcome::Synced <==> output.annotation is Some && known && current
                != output.annotation && (current is None || overwrite)
        }),
{
}

/// The outpoints that are reported with an outcome are those of the outputs that
/// have it.
pub proof fn reported_outputs_have_the_outcome(
    outputs: Seq<UtxoModel>,
    descriptions: Map<Seq<char>, Option<Seq<char>>>,
    overwrite: bool,
    outcome: Outcome,
    outpoint: Seq<char>,
)
    ensures
        outpoints_with(outputs, descriptions, overwrite, outcome).contains(outpoint) <==> exists|
            i: int,
        |
            0 <= i < outputs.len() && (#[trigger] outputs[i]).outpoint == outpoint && outcome_of(
                outputs[i],
                descriptions,
                overwrite,
            ) == outcome,
    decreases outputs.len(),
{
    if outputs.len() > 0 {
        let rest = outputs.drop_last();
        let last = outputs.last();
        reported_outputs_have_the_outcome(rest, descriptions, overwrite, outcome, outpoint);
        push_contains(
            outpoints_with(rest, descriptions, overwrite, outcome),
            last.outpoint,
            outpoint,
        );
        if exists|i: int|
            0 <= i < rest.len() && (#[trigger] rest[i]).outpoint == outpoint && outcome_of(
                rest[i],
                descriptions,
                overwrite,
            ) == outcome {
            let i = choose|i: int|
                0 <= i < rest.len() && (#[trigger] rest[i]).outpoint == outpoint && outcome_of(
                    rest[i],
                    descriptions,
                    overwrite,
                ) == outcome;
            assert(outputs[i].outpoint == outpoint);
        }
        if exists|i: int|
            0 <= i < outputs.len() && (#[trigger] outputs[i]).outpoint == outpoint && outcome_of(
                outputs[i],
                descriptions,
                overwrite,
            ) == outcome {
            let i = choose|i: int|
                0 <= i < outputs.len() && (#[trigger] outputs[i]).outpoint == outpoint
                    && outcome_of(outputs[i], descriptions, overwrite) == outcome;
            if i < rest.len() {
                assert(rest[i].outpoint == outpoint);
            }
        }
        if last.outpoint == outpoint && outcome_of(last, descriptions, overwrite) == outcome {
            assert(outputs[outputs.len() - 1].outpoint == outpoint);
        }
    }
}

/// For each output that is synced, and for no other, Bookkeeper is told its
/// annotation as the description of its outpoint: the call and the report stand at
/// the same place.
pub proof fn synced_outputs_are_described(
    outputs: Seq<UtxoModel>,
    descriptions: Map<Seq<char>, Option<Seq<char>>>,
    overwrite: bool,
    k: int,
)
    ensures
        ({
            let calls = sync_calls(outputs, descriptions, overwrite);
            let synced = outpoints_with(outputs, descriptions, overwrite, Outcome::Synced);
            &&& calls.len() == synced.len()
            &&& 0 <= k < calls.len() ==> {
                &&& calls[k].method == "bkpr-editdescriptionbyoutpoint"@
                &&& calls[k].params.text_field("outpoint"@) == Some(synced[k])
                &&& exists|i: int|
                    0 <= i < outputs.len() && (#[trigger] outputs[i]).outpoint == synced[k]
                        && outputs[i].annotation is Some && calls[k].params.text_field(
                        "description"@,
                    ) == outputs[i].annotation
            }
        }),
    decreases outputs.len(),
{
    if outputs.len() > 0 {
        let rest = outputs.drop_last();
        let last = outputs.last();
        synced_outputs_are_described(rest, descriptions, overwrite, k);
        let calls = sync_calls(outputs, descriptions, overwrite);
        let synced = outpoints_with(outputs, descriptions, overwrite, Outcome::Synced);
        let before = sync_calls(rest, descriptions, overwrite);
        if 0 <= k < before.len() {
            let i = choose|i: int|
                0 <= i < rest.len() && (#[trigger] rest[i]).outpoint == synced[k]
                    && rest[i].annotation is Some && before[k].params.text_field("description"@)
                    == rest[i].annotation;
            assert(outputs[i].outpoint == synced[k]);
        } else if k == before.len() && k < calls.len() {
            description_is_told(last.outpoint, last.annotation->Some_0);
            assert(outputs[outputs.len() - 1].outpoint == synced[k]);
        }
    }
}

/// Descriptions are synchronised for a descriptor that is known, not being deleted
/// and not being scanned.
pub proof fn descriptions_need_a_descriptor(state: StateModel, name: Seq<char>)
    ensures
        describable(state, name) is Ok <==> state.inner.records.contains_key(name)
            && !state.active_scans.contains_key(name) && state.inner.records[name].status
            != DescriptorStatus::Deleting,
        describable(state, name) matches Ok(record) ==> record == state.inner.records[name],
{
}

/// The annotated outputs are counted: none more and none less than have an
/// annotation.
pub proof fn annotated_outputs_are_counted(outputs: Seq<UtxoModel>, output: UtxoModel)
    ensures
        count_annotated(Seq::empty()) == 0,
        count_annotated(outputs.push(output)) == count_annotated(outputs) + (
        if output.annotation is Some {
            1nat
        } else {
            0nat
        }),
{
    assert(outputs.push(output).drop_last() =~= outputs);
}

/// Each output of a record is reported under what becomes of it: synced where its
/// annotation becomes the description, unchanged where it is, missing where Bookkeeper
/// does not know the output.
pub proof fn outputs_are_reported_as_they_fare(
    record: RecordModel,
    events: Seq<JsonModel>,
    overwrite: bool,
    key: Seq<char>,
)
    requires
        record.utxos.dom().finite(),
        record.utxos.contains_key(key),
        record.utxos[key].annotation is Some,
    ensures
        ({
            let plan = description_plan(record, events, overwrite);
            let output = record.utxos[key];
            let descriptions = event_descriptions(events);
            let known = descriptions.contains_key(output.outpoint);
            let current = descriptions[output.outpoint];
            &&& !known ==> plan.missing_events.contains(output.outpoint)
            &&& known && current == output.annotation ==> plan.unchanged.contains(output.outpoint)
            &&& known && current != output.annotation && (current is None || overwrite)
                ==> plan.synced.contains(output.outpoint)
            &&& known && current != output.annotation && current is Some && !overwrite
                ==> exists|k: int|
                0 <= k < plan.conflicts.len() && is_conflict_of(
                    #[trigger] plan.conflicts[k],
                    output,
                    current,
                )
            &&& plan.annotated == plan.synced.len() + plan.unchanged.len() + plan.conflicts.len()
                + plan.missing_events.len()
            &&& plan.calls.len() == plan.synced.len()
        }),
{
    let outputs = sorted_values(record.utxos);
    let keys = sorted_keys(record.utxos.dom());
    let descriptions = event_descriptions(events);
    sorted_keys_of(record.utxos.dom());
    assert(keys.to_set().contains(key));
    let i = choose|i: int| 0 <= i < keys.len() && keys[i] == key;
    let output = record.utxos[key];
    assert(outputs[i] == output);
    annotation_becomes_the_description(output, descriptions, overwrite);
    reported_outputs_have_the_outcome(
        outputs,
        descriptions,
        overwrite,
        Outcome::Missing,
        output.outpoint,
    );
    reported_outputs_have_the_outcome(
        outputs,
        descriptions,
        overwrite,
        Outcome::Unchanged,
        output.outpoint,
    );
    reported_outputs_have_the_outcome(
        outputs,
        descriptions,
        overwrite,
        Outcome::Synced,
        output.outpoint,
    );
    every_annotation_is_accounted_for(outputs, descriptions, overwrite);
    synced_outputs_are_described(outputs, descriptions, overwrite, 0);
    if outcome_of(output, descriptions, overwrite) == Outcome::Conflict {
        conflicts_are_shown(outputs, descriptions, overwrite, i);
        let conflicts = conflicts_shown(outputs, descriptions, overwrite);
        let k = choose|k: int|
            0 <= k < conflicts.len() && is_conflict_of(
                #[trigger] conflicts[k],
                outputs[i],
                descriptions[outputs[i].outpoint],
            );
        let plan = description_plan(record, events, overwrite);
        assert(is_conflict_of(plan.conflicts[k], output, descriptions[output.outpoint]));
    }
}

/// What is shown of a conflict: the output, its annotation, and the description
/// that Bookkeeper has.
pub open spec fn is_conflict_of(
    shown: JsonModel,
    output: UtxoModel,
    current: Option<Seq<char>>,
) -> bool {
    &&& shown.text_field("outpoint"@) == Some(output.outpoint)
    &&& shown.text_field("tracker_annotation"@) == output.annotation
    &&& shown.text_field("bookkeeper_description"@) == current
}

/// Each output that is in conflict is shown.
proof fn conflicts_are_shown(
    outputs: Seq<UtxoModel>,
    descriptions: Map<Seq<char>, Option<Seq<char>>>,
    overwrite: bool,
    i: int,
)
    requires
        0 <= i < outputs.len(),
        outcome_of(outputs[i], descriptions, overwrite) == Outcome::Conflict,
    ensures
        exists|k: int|
            0 <= k < conflicts_shown(outputs, descriptions, overwrite).len() && is_conflict_of(
                #[trigger] conflicts_shown(outputs, descriptions, overwrite)[k],
                outputs[i],
                descriptions[outputs[i].outpoint],
            ),
    decreases outputs.len(),
{
    let rest = outputs.drop_last();
    let before = conflicts_shown(rest, descriptions, overwrite);
    let all = conflicts_shown(outputs, descriptions, overwrite);
    if i == rest.len() {
        reveal_strlit("outpoint");
        reveal_strlit("tracker_annotation");
        reveal_strlit("bookkeeper_description");
        assert("outpoint"@.len() == 8);
        assert("tracker_annotation"@.len() == 18);
        assert("bookkeeper_description"@.len() == 22);
        let fields = conflict_shown(outputs[i], descriptions)->Object_0;
        named_field_at(fields, 0);
        named_field_at(fields, 1);
        named_field_at(fields, 2);
        assert(is_conflict_of(
            all[before.len() as int],
            outputs[i],
            descriptions[outputs[i].outpoint],
        ));
    } else {
        assert(rest[i] == outputs[i]);
        conflicts_are_shown(rest, descriptions, overwrite, i);
        let k = choose|k: int|
            0 <= k < before.len() && is_conflict_of(
                #[trigger] before[k],
                rest[i],
                descriptions[rest[i].outpoint],
            );
        assert(all[k] == before[k]);
    }
}

/// The answer to a synchronisation says for which descriptor it was made, and lists
/// what was planned.
pub proof fn synchronisation_is_answered(name: Seq<char>, overwrite: bool, plan: DescriptionModel)
    requires
        plan.annotated <= u64::MAX,
    ensures
        ({
            let shown = sync_shown(name, overwrite, plan);
            &&& shown.text_field("name"@) == Some(name)
            &&& shown.field("overwrite"@) == Some(JsonModel::Bool(overwrite))
            &&& shown.number_field("annotated_utxos"@) == Some(plan.annotated as u64)
            &&& shown.list_field("synced"@) is Some && is_text_row(
                shown.list_field("synced"@)->Some_0,
                plan.synced,
            )
            &&& shown.list_field("unchanged"@) is Some && is_text_row(
                shown.list_field("unchanged"@)->Some_0,
                plan.unchanged,
            )
            &&& shown.list_field("conflicts"@) == Some(plan.conflicts)
            &&& shown.list_field("missing_events"@) is Some && is_text_row(
                shown.list_field("missing_events"@)->Some_0,
                plan.missing_events,
            )
        }),
{
    reveal_strlit("name");
    reveal_strlit("overwrite");
    reveal_strlit("annotated_utxos");
    reveal_strlit("synced");
    reveal_strlit("unchanged");
    reveal_strlit("conflicts");
    reveal_strlit("missing_events");
    assert("name"@.len() == 4);
    assert("overwrite"@.len() == 9);
    assert("annotated_utxos"@.len() == 15);
    assert("synced"@.len() == 6);
    assert("unchanged"@.len() == 9);
    assert("conflicts"@.len() == 9);
    assert("missing_events"@.len() == 14);
    assert("unchanged"@[0] == 'u');
    assert("overwrite"@[0] == 'o');
    assert("conflicts"@[0] == 'c');
    let fields = sync_shown(name, overwrite, plan)->Object_0;
    named_field_at(fields, 0);
    named_field_at(fields, 1);
    named_field_at(fields, 2);
    named_field_at(fields, 3);
    named_field_at(fields, 4);
    named_field_at(fields, 5);
    named_field_at(fields, 6);
}

} // verus!
