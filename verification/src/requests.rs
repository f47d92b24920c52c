//! How requests are read and answered, and which descriptors they concern.

use crate::error::{refusal_of, Refusal, RefusalModel, TrackerError};
use crate::json::{named_field_at, no_field_of_a_name, no_fields, opt_text, Fields, Json, JsonModel};
use crate::model::{DescriptorStatus, RecordModel};
use crate::ordered::{models, push_contains, sorted_keys, sorted_keys_of};
use crate::state::AppState;
use crate::text::around;
use vstd::prelude::*;
use vstd::string::*;

verus! {

/// Parameters by name: those of a list are named in order.
pub open spec fn named_parameters(args: JsonModel, names: Seq<Seq<char>>) -> Result<
    JsonModel,
    TrackerError,
> {
    match args.items() {
        None => Ok(args),
        Some(values) => if values.len() > names.len() {
            Err(TrackerError::TooManyParameters)
        } else {
            Ok(
                JsonModel::Object(
                    Seq::new(values.len(), |i: int| (names[i], values[i])),
                ),
            )
        },
    }
}

/// Gives parameters by name: those of a list are named in order.
pub fn parse_request(args: &Json, names: &Vec<&str>) -> (r: Result<Json, TrackerError>)
    ensures
        (match r {
            Ok(named) => Ok(named@),
            Err(e) => Err(e),
        }) == named_parameters(args@, models(names@)),
{
    let values = match args.as_list() {
        None => {
            return Ok(args.duplicate());
        },
        Some(values) => values,
    };
    if values.len() > names.len() {
        return Err(TrackerError::TooManyParameters);
    }
    let ghost all = Seq::new(values@.len(), |i: int| (models(names@)[i], models(values@)[i]));
    let mut fields = Fields::new();
    let mut i: usize = 0;
    while i < values.len()
        invariant
            i <= values.len() <= names.len(),
            all == Seq::new(values@.len(), |i: int| (models(names@)[i], models(values@)[i])),
            fields@ == all.take(i as int),
        decreases values.len() - i,
    {
        fields.put(names[i], values[i].duplicate());
        assert(all.take(i + 1) =~= all.take(i as int).push(all[i as int]));
        i = i + 1;
    }
    assert(all.take(i as int) =~= all);
    Ok(fields.done())
}

/// The keys of a row whose records have pending movements and are not being
/// deleted.
pub open spec fn waiting_names(
    records: Map<Seq<char>, RecordModel>,
    keys: Seq<Seq<char>>,
) -> Seq<Seq<char>>
    decreases keys.len(),
{
    if keys.len() == 0 {
        Seq::empty()
    } else {
        let rest = waiting_names(records, keys.drop_last());
        let record = records[keys.last()];
        if record.status != DescriptorStatus::Deleting && record.pending_movements.dom()
            != Set::<Seq<char>>::empty() {
            rest.push(keys.last())
        } else {
            rest
        }
    }
}

/// The descriptors whose pending movements a new block concerns, in order.
pub fn names_to_drain(state: &AppState) -> (r: Vec<String>)
    ensures
        models(r@) == waiting_names(
            state@.inner.records,
            sorted_keys(state@.inner.records.dom()),
        ),
{
    let records = state.records_snapshot();
    let ghost keys = sorted_keys(records@.dom());
    let n = records.len();
    let mut names: Vec<String> = Vec::new();
    let mut i: usize = 0;
    assert(models(names@) =~= Seq::<Seq<char>>::empty());
    while i < n
        invariant
            i <= n,
            n == keys.len(),
            n == records@.dom().len(),
            keys == sorted_keys(records@.dom()),
            models(names@) == waiting_names(records@, keys.take(i as int)),
        decreases n - i,
    {
        let (key, record) = records.at(i);
        assert(keys.take(i + 1).drop_last() =~= keys.take(i as int));
        if record.status != DescriptorStatus::Deleting && !record.pending_movements.is_empty() {
            let ghost before = models(names@);
            names.push(key.clone());
            assert(models(names@) =~= before.push(key@));
        }
        i = i + 1;
    }
    assert(keys.take(i as int) =~= keys);
    names
}

/// The descriptors that a reconciliation concerns: the one that it names, or
/// all, in order.
pub open spec fn reconciled_names(
    records: Map<Seq<char>, RecordModel>,
    name: Option<Seq<char>>,
) -> Seq<Seq<char>> {
    match name {
        Some(name) => seq![name],
        None => sorted_keys(records.dom()),
    }
}

/// The descriptors that a reconciliation concerns: the one that it names, or
/// all, in order.
pub fn names_to_reconcile(state: &AppState, name: &Option<String>) -> (r: Vec<String>)
    ensures
        models(r@) == reconciled_names(state@.inner.records, opt_text(*name)),
{
    match name {
        Some(name) => {
            let r = vec![name.clone()];
            assert(models(r@) =~= seq![name@]);
            r
        },
        None => state.record_names(),
    }
}

/// What a failure of a descriptor is called in that of a block.
pub fn failure_line(name: &str, message: &str) -> (r: String)
    ensures
        r@ == name@ + ": "@ + message@,
{
    around(name, ": ", message)
}

/// Texts joined by a separator.
pub open spec fn joined(texts: Seq<Seq<char>>, separator: Seq<char>) -> Seq<char>
    decreases texts.len(),
{
    if texts.len() == 0 {
        Seq::empty()
    } else if texts.len() == 1 {
        texts[0]
    } else {
        joined(texts.drop_last(), separator) + separator + texts.last()
    }
}

/// Joins texts by a separator.
fn join(texts: &Vec<String>, separator: &str) -> (r: String)
    ensures
        r@ == joined(models(texts@), separator@),
{
    let ghost all = models(texts@);
    if texts.len() == 0 {
        return String::new();
    }
    let mut r = texts[0].clone();
    let mut i: usize = 1;
    assert(all.take(1)[0] == texts[0]@);
    while i < texts.len()
        invariant
            1 <= i <= texts.len(),
            all == models(texts@),
            r@ == joined(all.take(i as int), separator@),
        decreases texts.len() - i,
    {
        assert(all[i as int] == texts[i as int]@);
        assert(all.take(i + 1).drop_last() =~= all.take(i as int));
        r.append(separator);
        r.append(texts[i].as_str());
        i = i + 1;
    }
    assert(all.take(i as int) =~= all);
    r
}

/// Why a block is not done with, where descriptors failed.
pub open spec fn block_fault(error: TrackerError, failures: Seq<Seq<char>>) -> Option<
    RefusalModel,
> {
    if failures.len() == 0 {
        None
    } else {
        Some(refusal_of(error, joined(failures, "; "@)))
    }
}

/// A block is processed where no descriptor failed.
pub fn on_bwatch_block_processed(height: u32, failures: &Vec<String>) -> (r: Result<(), Refusal>)
    ensures
        match block_fault(TrackerError::BlockUnprocessed { height }, models(failures@)) {
            None => r is Ok,
            Some(refusal) => r is Err && r->Err_0@ == refusal,
        },
{
    if failures.len() == 0 {
        return Ok(());
    }
    let subject = join(failures, "; ");
    Err(Refusal::of(TrackerError::BlockUnprocessed { height }, subject.as_str()))
}

/// A block is reverted where no descriptor failed.
pub fn on_bwatch_block_reverted(height: u32, failures: &Vec<String>) -> (r: Result<(), Refusal>)
    ensures
        match block_fault(TrackerError::BlockUnreverted { height }, models(failures@)) {
            None => r is Ok,
            Some(refusal) => r is Err && r->Err_0@ == refusal,
        },
{
    if failures.len() == 0 {
        return Ok(());
    }
    let subject = join(failures, "; ");
    Err(Refusal::of(TrackerError::BlockUnreverted { height }, subject.as_str()))
}

/// The answer for a descriptor that was reconciled.
pub open spec fn reconciled_shown(name: Seq<char>, result: JsonModel) -> JsonModel {
    JsonModel::Object(
        no_fields()
            .push(("name"@, JsonModel::Text(name)))
            .push(("ok"@, JsonModel::Bool(true)))
            .push(("result"@, result)),
    )
}

/// The answer for a descriptor that was reconciled.
pub fn reconciled_view(name: &str, result: Json) -> (r: Json)
    ensures
        r@ == reconciled_shown(name@, result@),
{
    let mut fields = Fields::new();
    fields.put_text("name", name);
    fields.put("ok", Json::Bool(true));
    fields.put("result", result);
    fields.done()
}

/// The answer for a descriptor that could not be reconciled.
pub open spec fn unreconciled_shown(name: Seq<char>, message: Seq<char>) -> JsonModel {
    JsonModel::Object(
        no_fields()
            .push(("name"@, JsonModel::Text(name)))
            .push(("ok"@, JsonModel::Bool(false)))
            .push(("error"@, JsonModel::Text(message))),
    )
}

/// The answer for a descriptor that could not be reconciled.
pub fn unreconciled_view(name: &str, message: &str) -> (r: Json)
    ensures
        r@ == unreconciled_shown(name@, message@),
{
    let mut fields = Fields::new();
    fields.put_text("name", name);
    fields.put("ok", Json::Bool(false));
    fields.put_text("error", message);
    fields.done()
}

/// The answer to a reconciliation: one for each descriptor.
pub open spec fn reconciliations_shown(results: Seq<JsonModel>) -> JsonModel {
    JsonModel::Object(no_fields().push(("reconciled"@, JsonModel::List(results))))
}

/// The answer to a reconciliation: one for each descriptor.
pub fn reconcile_view(results: Vec<Json>) -> (r: Json)
    ensures
        r@ == reconciliations_shown(models(results@)),
{
    let mut fields = Fields::new();
    fields.put("reconciled", Json::of_list(results));
    fields.done()
}

/// The answer to an acknowledgement.
pub open spec fn acknowledgement_shown(name: Seq<char>, acknowledged: bool) -> JsonModel {
    JsonModel::Object(
        no_fields()
            .push(("name"@, JsonModel::Text(name)))
            .push(("acknowledged"@, JsonModel::Bool(acknowledged))),
    )
}

/// The answer to an acknowledgement.
pub fn acknowledgement_view(name: &str, acknowledged: bool) -> (r: Json)
    ensures
        r@ == acknowledgement_shown(name@, acknowledged),
{
    let mut fields = Fields::new();
    fields.put_text("name", name);
    fields.put("acknowledged", Json::Bool(acknowledged));
    fields.done()
}

/// Parameters by name are taken as they are. Those of a list get the names in
/// order, and a list of more than there are names is refused.
pub proof fn parameters_are_named_in_order(args: JsonModel, names: Seq<Seq<char>>, i: int)
    ensures
        !(args is List) ==> named_parameters(args, names) == Ok::<JsonModel, TrackerError>(args),
        args matches JsonModel::List(values) ==> {
            &&& named_parameters(args, names) is Err <==> values.len() > names.len()
            &&& values.len() <= names.len() && 0 <= i < values.len() && names.no_duplicates() ==> {
                &&& named_parameters(args, names) is Ok
                &&& named_parameters(args, names)->Ok_0.field(names[i]) == Some(values[i])
            }
            &&& values.len() <= i < names.len() && names.no_duplicates() ==> named_parameters(
                args,
                names,
            )->Ok_0.field(names[i]) is None
        },
{
    match args {
        JsonModel::List(values) => {
            if values.len() <= names.len() && names.no_duplicates() {
                let fields = named_parameters(args, names)->Ok_0->Object_0;
                if 0 <= i < values.len() {
                    assert forall|j: int| 0 <= j < i implies (#[trigger] fields[j]).0
                        != fields[i].0 by {
                        assert(names[j] != names[i]);
                    }
                    named_field_at(fields, i);
                } else if values.len() <= i < names.len() {
                    assert forall|j: int| 0 <= j < fields.len() implies (#[trigger] fields[j]).0
                        != names[i] by {
                        assert(names[j] != names[i]);
                    }
                    no_field_of_a_name(fields, names[i]);
                }
            }
        },
        _ => {},
    }
}

/// A new block concerns exactly the descriptors that are not being deleted and have
/// movements waiting.
pub proof fn waiting_descriptors_are_drained(
    records: Map<Seq<char>, RecordModel>,
    keys: Seq<Seq<char>>,
    name: Seq<char>,
)
    ensures
        waiting_names(records, keys).contains(name) <==> keys.contains(name)
            && records[name].status != DescriptorStatus::Deleting && exists|id: Seq<char>|
            records[name].pending_movements.contains_key(id),
    decreases keys.len(),
{
    if keys.len() > 0 {
        let rest = keys.drop_last();
        let last = keys.last();
        waiting_descriptors_are_drained(records, rest, name);
        assert(keys =~= rest.push(last));
        push_contains(rest, last, name);
        push_contains(waiting_names(records, rest), last, name);
        let pending = records[last].pending_movements;
        if pending.dom() != Set::<Seq<char>>::empty() {
            if forall|id: Seq<char>| !pending.contains_key(id) {
                assert(pending.dom() =~= Set::<Seq<char>>::empty());
            }
        }
    }
}

/// A reconciliation concerns the descriptor that it names, or every known one.
pub proof fn reconciliation_concerns(
    records: Map<Seq<char>, RecordModel>,
    asked: Option<Seq<char>>,
    name: Seq<char>,
)
    requires
        records.dom().finite(),
    ensures
        asked is Some ==> reconciled_names(records, asked) == seq![asked->Some_0],
        asked is None ==> (reconciled_names(records, asked).contains(name)
            <==> records.contains_key(name)),
{
    sorted_keys_of(records.dom());
    let keys = sorted_keys(records.dom());
    assert(keys.to_set().contains(name) == records.dom().contains(name));
}

/// A block is processed or reverted where no descriptor failed; else the refusal
/// names the height and every failure.
pub proof fn failed_block_is_refused(
    height: u32,
    failures: Seq<Seq<char>>,
    failure: Seq<char>,
)
    ensures
        block_fault(TrackerError::BlockUnprocessed { height }, failures) is None <==> failures.len()
            == 0,
        block_fault(TrackerError::BlockUnreverted { height }, failures) is None <==> failures.len()
            == 0,
        joined(seq![failure], "; "@) == failure,
        failures.len() > 0 ==> joined(failures.push(failure), "; "@) == joined(failures, "; "@)
            + "; "@ + failure,
        failures.len() > 0 ==> block_fault(
            TrackerError::BlockUnprocessed { height },
            failures,
        )->Some_0.error == (TrackerError::BlockUnprocessed { height }),
        failures.len() > 0 ==> block_fault(
            TrackerError::BlockUnreverted { height },
            failures,
        )->Some_0.error == (TrackerError::BlockUnreverted { height }),
        failures.len() > 0 ==> block_fault(
            TrackerError::BlockUnprocessed { height },
            failures,
        )->Some_0.subject == joined(failures, "; "@),
{
    assert(failures.push(failure).drop_last() =~= failures);
}

/// The answers to a reconciliation and to an acknowledgement say which descriptor
/// they are about, and whether it went well and how.
pub proof fn answers_say_how_it_went(
    name: Seq<char>,
    result: JsonModel,
    message: Seq<char>,
    acknowledged: bool,
    results: Seq<JsonModel>,
)
    ensures
        reconciled_shown(name, result).text_field("name"@) == Some(name),
        reconciled_shown(name, result).field("ok"@) == Some(JsonModel::Bool(true)),
        reconciled_shown(name, result).field("result"@) == Some(result),
        unreconciled_shown(name, message).text_field("name"@) == Some(name),
        unreconciled_shown(name, message).field("ok"@) == Some(JsonModel::Bool(false)),
        unreconciled_shown(name, message).text_field("error"@) == Some(message),
        acknowledgement_shown(name, acknowledged).text_field("name"@) == Some(name),
        acknowledgement_shown(name, acknowledged).field("acknowledged"@) == Some(
            JsonModel::Bool(acknowledged),
        ),
        reconciliations_shown(results).list_field("reconciled"@) == Some(results),
{
    reveal_strlit("name");
    reveal_strlit("ok");
    reveal_strlit("result");
    reveal_strlit("error");
    reveal_strlit("acknowledged");
    assert("name"@.len() == 4 && "ok"@.len() == 2 && "result"@.len() == 6);
    assert("error"@.len() == 5 && "acknowledged"@.len() == 12);
    let done = reconciled_shown(name, result)->Object_0;
    named_field_at(done, 0);
    named_field_at(done, 1);
    named_field_at(done, 2);
    let failed = unreconciled_shown(name, message)->Object_0;
    named_field_at(failed, 0);
    named_field_at(failed, 1);
    named_field_at(failed, 2);
    let answer = acknowledgement_shown(name, acknowledged)->Object_0;
    named_field_at(answer, 0);
    named_field_at(answer, 1);
    named_field_at(reconciliations_shown(results)->Object_0, 0);
}

} // verus!
