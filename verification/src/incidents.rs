//! How failures and successes are noted on descriptors.

use crate::error::{refusal_of, Refusal, RefusalModel, TrackerError};
use crate::model::{DescriptorRecord, DescriptorStatus, IncidentModel, RecordModel, TrackerIncident};
use crate::ordered::models;
use crate::text::{begins_with, contains, holds_text, same_text, starts_with};
use vstd::prelude::*;
use vstd::string::*;

verus! {

/// The code of a failure.
pub open spec fn incident_code_text(operation: Seq<char>, message: Seq<char>) -> Seq<char> {
    if holds_text(message, "Historical rescan failed at block"@) {
        "historical_block_unavailable"@
    } else if operation == "bookkeeper_reorg"@ {
        "bookkeeper_reorg"@
    } else if holds_text(operation, "bookkeeper"@) || holds_text(message, "Bookkeeper"@) {
        "bookkeeper_injection_failed"@
    } else if holds_text(message, "generation"@) {
        "datastore_generation_conflict"@
    } else if holds_text(message, "lookahead"@) || holds_text(message, "derivation range"@) {
        "lookahead_extension_failed"@
    } else if holds_text(message, "bwatch"@) || holds_text(message, "watch"@) {
        "watch_reconciliation_failed"@
    } else {
        "tracker_operation_failed"@
    }
}

/// The code of a failure.
pub fn incident_code(operation: &str, message: &str) -> (r: &'static str)
    ensures
        r@ == incident_code_text(operation@, message@),
{
    if contains(message, "Historical rescan failed at block") {
        "historical_block_unavailable"
    } else if same_text(operation, "bookkeeper_reorg") {
        "bookkeeper_reorg"
    } else if contains(operation, "bookkeeper") || contains(message, "Bookkeeper") {
        "bookkeeper_injection_failed"
    } else if contains(message, "generation") {
        "datastore_generation_conflict"
    } else if contains(message, "lookahead") || contains(message, "derivation range") {
        "lookahead_extension_failed"
    } else if contains(message, "bwatch") || contains(message, "watch") {
        "watch_reconciliation_failed"
    } else {
        "tracker_operation_failed"
    }
}

/// One more, up to the greatest number.
pub open spec fn one_more(n: u64) -> u64 {
    if n == u64::MAX {
        n
    } else {
        (n + 1) as u64
    }
}

/// An incident stays as it is when another operation fails: one that an
/// operator must resolve, and any while a descriptor is not active and an
/// event fails.
pub open spec fn keeps_incident(record: RecordModel, operation: Seq<char>) -> bool {
    match record.incident {
        None => false,
        Some(incident) => incident.operation != operation && (incident.operator_action_required || (
        record.status != DescriptorStatus::Active && operation == "bwatch_event"@)),
    }
}

/// The incident of a record after a failure that it notes. A failure of the
/// same code and operation is counted as a retry.
pub open spec fn failure_incident(
    before: Option<IncidentModel>,
    operation: Seq<char>,
    message: Seq<char>,
    operator_action_required: bool,
    now: u64,
) -> IncidentModel {
    let code = incident_code_text(operation, message);
    let retried = before matches Some(incident) && incident.code == code && incident.operation
        == operation;
    IncidentModel {
        code,
        operation,
        message,
        first_seen: if retried {
            before->Some_0.first_seen
        } else {
            now
        },
        last_seen: now,
        retry_count: if retried {
            one_more(before->Some_0.retry_count)
        } else {
            1
        },
        operator_action_required,
    }
}

/// A failure of an operation is noted on a record.
pub open spec fn is_noted(record: RecordModel, operation: Seq<char>) -> bool {
    !keeps_incident(record, operation)
}

/// A record after a failure.
pub open spec fn failure_noted(
    record: RecordModel,
    operation: Seq<char>,
    message: Seq<char>,
    operator_action_required: bool,
    now: u64,
) -> RecordModel {
    if keeps_incident(record, operation) {
        record
    } else {
        RecordModel {
            incident: Some(
                failure_incident(
                    record.incident,
                    operation,
                    message,
                    operator_action_required,
                    now,
                ),
            ),
            ..record
        }
    }
}

/// Notes a failure on a record. The record is to be stored where this holds.
pub fn persist_failure(
    record: &mut DescriptorRecord,
    operation: &str,
    message: &str,
    operator_action_required: bool,
    now: u64,
) -> (noted: bool)
    ensures
        noted == is_noted(old(record)@, operation@),
        final(record)@ == failure_noted(
            old(record)@,
            operation@,
            message@,
            operator_action_required,
            now,
        ),
{
    let code = incident_code(operation, message);
    let mut first_seen: u64 = now;
    let mut retry_count: u64 = 1;
    match &record.incident {
        None => {},
        Some(existing) => {
            let same_operation = same_text(existing.operation.as_str(), operation);
            if !same_operation && (existing.operator_action_required || (record.status
                != DescriptorStatus::Active && same_text(operation, "bwatch_event"))) {
                return false;
            }
            if same_operation && same_text(existing.code.as_str(), code) {
                first_seen = existing.first_seen;
                retry_count = if existing.retry_count == u64::MAX {
                    existing.retry_count
                } else {
                    existing.retry_count + 1
                };
            }
        },
    }
    record.incident = Some(
        TrackerIncident {
            code: code.to_owned(),
            operation: operation.to_owned(),
            message: message.to_owned(),
            first_seen,
            last_seen: now,
            retry_count,
            operator_action_required,
        },
    );
    true
}

/// The operations that carry a descriptor through its life.
pub open spec fn is_lifecycle(operation: Seq<char>) -> bool {
    operation == "register"@ || operation == "rescan"@ || operation == "update"@ || operation
        == "startup_reconciliation"@
}

/// Whether an operation carries a descriptor through its life.
fn lifecycle_operation(operation: &str) -> (r: bool)
    ensures
        r == is_lifecycle(operation@),
{
    same_text(operation, "register") || same_text(operation, "rescan") || same_text(
        operation,
        "update",
    ) || same_text(operation, "startup_reconciliation")
}

/// The operations that deal with Bookkeeper.
pub open spec fn is_bookkeeping(operation: Seq<char>) -> bool {
    begins_with(operation, "bookkeeper"@)
}

/// A success of an operation resolves an incident.
pub open spec fn resolves(operation: Seq<char>, incident: IncidentModel) -> bool {
    !incident.operator_action_required && (incident.operation == operation || (is_lifecycle(
        incident.operation,
    ) && is_lifecycle(operation)) || (is_bookkeeping(incident.operation) && is_bookkeeping(
        operation,
    )))
}

/// A record after a success.
pub open spec fn success_marked(
    record: RecordModel,
    operation: Seq<char>,
    now: u64,
) -> RecordModel {
    RecordModel {
        incident: match record.incident {
            Some(incident) => if resolves(operation, incident) {
                None
            } else {
                Some(incident)
            },
            None => None,
        },
        last_success_at: Some(now),
        ..record
    }
}

/// Marks a success on a record.
pub fn mark_success(record: &mut DescriptorRecord, operation: &str, now: u64)
    ensures
        final(record)@ == success_marked(old(record)@, operation@, now),
{
    let resolved = match &record.incident {
        None => false,
        Some(incident) => {
            !incident.operator_action_required && (same_text(
                incident.operation.as_str(),
                operation,
            ) || (lifecycle_operation(incident.operation.as_str()) && lifecycle_operation(
                operation,
            )) || (starts_with(incident.operation.as_str(), "bookkeeper") && starts_with(
                operation,
                "bookkeeper",
            )))
        },
    };
    if resolved {
        record.incident = None;
    }
    record.last_success_at = Some(now);
}

/// A record after a success of one of some operations: nothing is marked unless
/// its incident is one of theirs.
pub open spec fn recovered(
    record: RecordModel,
    operations: Seq<Seq<char>>,
    now: u64,
) -> Option<RecordModel> {
    match record.incident {
        Some(incident) => if operations.contains(incident.operation) {
            Some(success_marked(record, incident.operation, now))
        } else {
            None
        },
        None => None,
    }
}

/// Whether a list of texts holds a text.
fn holds(texts: &Vec<String>, text: &str) -> (r: bool)
    ensures
        r == models(texts@).contains(text@),
{
    let ghost all = models(texts@);
    let mut i: usize = 0;
    while i < texts.len()
        invariant
            i <= texts.len(),
            all == models(texts@),
            forall|j: int| 0 <= j < i ==> all[j] != text@,
        decreases texts.len() - i,
    {
        assert(all[i as int] == texts[i as int]@);
        if same_text(texts[i].as_str(), text) {
            return true;
        }
        i = i + 1;
    }
    false
}

/// Marks a success of one of some operations, where the incident of a record is
/// one of theirs. The record is to be stored where this holds.
pub fn report_descriptor_success(
    record: &mut DescriptorRecord,
    operations: &Vec<String>,
    now: u64,
) -> (marked: bool)
    ensures
        match recovered(old(record)@, models(operations@), now) {
            Some(after) => marked && final(record)@ == after,
            None => !marked && final(record)@ == old(record)@,
        },
{
    let operation = match &record.incident {
        None => {
            return false;
        },
        Some(incident) => incident.operation.clone(),
    };
    if !holds(operations, operation.as_str()) {
        return false;
    }
    mark_success(record, operation.as_str(), now);
    true
}

/// A record whose incident an operator takes off, where there is one. Only one that
/// an operator must resolve can be taken off.
pub open spec fn acknowledged(record: RecordModel, now: u64) -> Result<
    Option<RecordModel>,
    RefusalModel,
> {
    match record.incident {
        None => Ok(None),
        Some(incident) => if incident.operator_action_required {
            Ok(Some(RecordModel { incident: None, last_success_at: Some(now), ..record }))
        } else {
            Err(refusal_of(TrackerError::IncidentOperational, incident.code))
        },
    }
}

/// Takes the incident of a record off at an operator's word. Only one that an
/// operator must resolve can be taken off; without an incident nothing changes.
pub fn ack_incident(record: &mut DescriptorRecord, now: u64) -> (r: Result<bool, Refusal>)
    ensures
        match acknowledged(old(record)@, now) {
            Ok(None) => r == Ok::<bool, Refusal>(false) && final(record)@ == old(record)@,
            Ok(Some(after)) => r == Ok::<bool, Refusal>(true) && final(record)@ == after,
            Err(refusal) => r is Err && r->Err_0@ == refusal && final(record)@ == old(record)@,
        },
{
    match &record.incident {
        None => {
            return Ok(false);
        },
        Some(incident) => {
            if !incident.operator_action_required {
                return Err(Refusal::of(TrackerError::IncidentOperational, incident.code.as_str()));
            }
        },
    }
    record.incident = None;
    record.last_success_at = Some(now);
    Ok(true)
}

/// The operation to which a failure is put down: `bookkeeper` where the
/// message names Bookkeeper.
pub open spec fn blamed_operation(
    message: Seq<char>,
    bookkeeper: Seq<char>,
    other: Seq<char>,
) -> Seq<char> {
    if holds_text(message, "Bookkeeper"@) {
        bookkeeper
    } else {
        other
    }
}

/// The operation to which a failure is put down: `bookkeeper` where the
/// message names Bookkeeper.
pub fn failure_operation<'a>(message: &str, bookkeeper: &'a str, other: &'a str) -> (r: &'a str)
    ensures
        r@ == blamed_operation(message@, bookkeeper@, other@),
{
    if contains(message, "Bookkeeper") {
        bookkeeper
    } else {
        other
    }
}

/// An incident that an operator must resolve outlives every failure of another
/// operation and every success.
pub proof fn operator_incident_stays(
    record: RecordModel,
    operation: Seq<char>,
    message: Seq<char>,
    operator_action_required: bool,
    now: u64,
)
    requires
        record.incident is Some,
        record.incident->Some_0.operator_action_required,
        record.incident->Some_0.operation != operation,
    ensures
        failure_noted(record, operation, message, operator_action_required, now) == record,
        success_marked(record, operation, now).incident == record.incident,
{
}

/// A failure that is noted is resolved by the next success of the same
/// operation, unless an operator must resolve it.
pub proof fn noted_failure_recovers(
    record: RecordModel,
    operation: Seq<char>,
    message: Seq<char>,
    now: u64,
    later: u64,
)
    requires
        !keeps_incident(record, operation),
    ensures
        success_marked(
            failure_noted(record, operation, message, false, now),
            operation,
            later,
        ).incident is None,
{
}

/// A failure that is noted says what failed, how and when, and whether an operator
/// must resolve it. A failure of the same code and operation as the incident that
/// was there is one more try of it; another begins anew. Nothing else changes.
pub proof fn noted_failure_says_what_failed(
    record: RecordModel,
    operation: Seq<char>,
    message: Seq<char>,
    operator_action_required: bool,
    now: u64,
)
    requires
        !keeps_incident(record, operation),
    ensures
        ({
            let after = failure_noted(record, operation, message, operator_action_required, now);
            let incident = after.incident->Some_0;
            let retried = record.incident is Some && record.incident->Some_0.operation == operation
                && record.incident->Some_0.code == incident.code;
            &&& after.incident is Some
            &&& incident.operation == operation
            &&& incident.message == message
            &&& incident.last_seen == now
            &&& incident.operator_action_required == operator_action_required
            &&& incident.code == incident_code_text(operation, message)
            &&& retried ==> incident.first_seen == record.incident->Some_0.first_seen
            &&& retried && record.incident->Some_0.retry_count < u64::MAX ==> incident.retry_count
                == record.incident->Some_0.retry_count + 1
            &&& !retried ==> incident.first_seen == now && incident.retry_count == 1
            &&& after == (RecordModel { incident: after.incident, ..record })
        }),
{
}

/// An incident is kept against a failure exactly where it is one of another
/// operation and an operator must resolve it, or where an event fails while the
/// descriptor is not active.
pub proof fn incident_is_kept_where_it_matters_more(record: RecordModel, operation: Seq<char>)
    ensures
        record.incident is None ==> !keeps_incident(record, operation),
        record.incident matches Some(incident) ==> {
            &&& incident.operation == operation ==> !keeps_incident(record, operation)
            &&& incident.operation != operation && incident.operator_action_required
                ==> keeps_incident(record, operation)
            &&& incident.operation != operation && !incident.operator_action_required ==> (
            keeps_incident(record, operation) <==> operation == "bwatch_event"@ && record.status
                != DescriptorStatus::Active)
        },
{
}

/// The code of a failure: a block that could not be had comes first, then a
/// reorganisation of what was booked, Bookkeeper, a conflict of generations, the
/// lookahead and the watches.
pub proof fn failure_has_its_code(operation: Seq<char>, message: Seq<char>)
    ensures
        ({
            let code = incident_code_text(operation, message);
            let block = holds_text(message, "Historical rescan failed at block"@);
            let reorg = operation == "bookkeeper_reorg"@;
            let books = holds_text(operation, "bookkeeper"@) || holds_text(message, "Bookkeeper"@);
            let conflict = holds_text(message, "generation"@);
            let range = holds_text(message, "lookahead"@) || holds_text(
                message,
                "derivation range"@,
            );
            let watch = holds_text(message, "bwatch"@) || holds_text(message, "watch"@);
            &&& block ==> code == "historical_block_unavailable"@
            &&& !block && reorg ==> code == "bookkeeper_reorg"@
            &&& !block && !reorg && books ==> code == "bookkeeper_injection_failed"@
            &&& !block && !reorg && !books && conflict ==> code == "datastore_generation_conflict"@
            &&& !block && !reorg && !books && !conflict && range ==> code
                == "lookahead_extension_failed"@
            &&& !block && !reorg && !books && !conflict && !range && watch ==> code
                == "watch_reconciliation_failed"@
            &&& !block && !reorg && !books && !conflict && !range && !watch ==> code
                == "tracker_operation_failed"@
        }),
{
}

/// A success resolves an incident of the same operation, of any work of the life of
/// a descriptor where it is such work, and of anything that deals with Bookkeeper
/// where it does; it resolves no other and none that an operator must. It is
/// marked with its time, and nothing else changes.
pub proof fn success_resolves_what_it_is_about(
    record: RecordModel,
    operation: Seq<char>,
    now: u64,
)
    ensures
        ({
            let after = success_marked(record, operation, now);
            &&& after.last_success_at == Some(now)
            &&& after == (RecordModel {
                incident: after.incident,
                last_success_at: after.last_success_at,
                ..record
            })
            &&& after.incident is Some ==> after.incident == record.incident
            &&& record.incident matches Some(incident) ==> {
                let life = seq!["register"@, "rescan"@, "update"@, "startup_reconciliation"@];
                let about = incident.operation == operation || (life.contains(incident.operation)
                    && life.contains(operation)) || (begins_with(
                    incident.operation,
                    "bookkeeper"@,
                ) && begins_with(operation, "bookkeeper"@));
                after.incident is None <==> about && !incident.operator_action_required
            }
        }),
{
    let life = seq!["register"@, "rescan"@, "update"@, "startup_reconciliation"@];
    assert forall|x: Seq<char>| #[trigger] life.contains(x) <==> is_lifecycle(x) by {
        if is_lifecycle(x) {
            assert(life[0] == "register"@ && life[1] == "rescan"@ && life[2] == "update"@ && life[3]
                == "startup_reconciliation"@);
        }
    }
}

/// A recovery is marked exactly where the incident is one of the operations that
/// succeeded, and then as a success of that operation.
pub proof fn recovery_is_of_the_incident(
    record: RecordModel,
    operations: Seq<Seq<char>>,
    now: u64,
)
    ensures
        recovered(record, operations, now) is Some <==> record.incident is Some
            && operations.contains(record.incident->Some_0.operation),
        recovered(record, operations, now) matches Some(after) ==> {
            &&& after.last_success_at == Some(now)
            &&& after.incident is None <==> !record.incident->Some_0.operator_action_required
            &&& after == (RecordModel {
                incident: after.incident,
                last_success_at: after.last_success_at,
                ..record
            })
        },
{
}

/// An operator takes off exactly an incident that an operator must resolve, which
/// counts as a success. One that resolves itself is not taken off, and without an
/// incident nothing happens.
pub proof fn operator_takes_off_the_incident(record: RecordModel, now: u64)
    ensures
        acknowledged(record, now) is Err <==> record.incident is Some
            && !record.incident->Some_0.operator_action_required,
        acknowledged(record, now) matches Ok(Some(after)) ==> {
            &&& record.incident is Some
            &&& record.incident->Some_0.operator_action_required
            &&& after == (RecordModel { incident: None, last_success_at: Some(now), ..record })
        },
        acknowledged(record, now) matches Ok(None) ==> record.incident is None,
{
}

/// A failure is put down to Bookkeeper exactly where its message names it.
pub proof fn failure_is_put_down_to_bookkeeper(
    message: Seq<char>,
    bookkeeper: Seq<char>,
    other: Seq<char>,
)
    ensures
        holds_text(message, "Bookkeeper"@) ==> blamed_operation(message, bookkeeper, other)
            == bookkeeper,
        !holds_text(message, "Bookkeeper"@) ==> blamed_operation(message, bookkeeper, other)
            == other,
{
}

/// A failure is noted exactly where it becomes the incident of the record.
pub proof fn failure_is_noted_or_left_alone(
    record: RecordModel,
    operation: Seq<char>,
    message: Seq<char>,
    operator_action_required: bool,
    now: u64,
)
    ensures
        ({
            let after = failure_noted(record, operation, message, operator_action_required, now);
            &&& is_noted(record, operation) ==> after.incident is Some
                && after.incident->Some_0.operation == operation && after.incident->Some_0.message
                == message && after.incident->Some_0.last_seen == now
            &&& !is_noted(record, operation) ==> after == record
            &&& record.incident is None ==> is_noted(record, operation)
        }),
{
}

} // verus!
