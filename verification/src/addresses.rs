//! How addresses are given out and listed.

use crate::descriptor::{address_at, address_result, hex_text, place_result, script_at};
use crate::error::{refusal_for, refusal_of, refuses, Refusal, RefusalModel, TrackerError};
use crate::frontier::{
    desired_branch_range_end, desired_end, frontier, index_at, refresh_aggregate_indexes, refreshed,
    set_end,
};
use crate::json::{
    named_field_at, no_fields, number_or_null, opt_text, text_or_null, Fields, Json, JsonModel,
};
use crate::lifecycle::{json_result, known, known_record, record_result};
use crate::model::{
    copy_text, DescriptorRecord, DescriptorStatus, IssuedAddress, IssuedModel, ListAddressesRequest,
    NewAddressRequest, RecordModel, UtxoModel, MAX_ANNOTATION_BYTES,
};
use crate::ordered::{models, sorted_keys, sorted_values, Duplicate};
use crate::scripts::{
    accepted_configuration_is_sound, config_set, descriptor_scripts, ensure_no_script_overlap,
    overlap_refusal, validate_config, watched_scripts,
};
use crate::state::{book_of, in_place_order, AppState, StateModel};
use crate::views::{indexes_shown, row_shown, show_indexes, show_list};
use vstd::prelude::*;
use vstd::string::*;

verus! {

/// Why a text cannot annotate an address, where it cannot.
pub open spec fn annotation_fault(annotation: Seq<char>) -> Option<TrackerError> {
    if annotation.len() == 0 {
        Some(TrackerError::AnnotationEmpty)
    } else if vstd::utf8::encode_utf8(annotation).len() > MAX_ANNOTATION_BYTES {
        Some(TrackerError::AnnotationTooLong)
    } else {
        None
    }
}

/// Refuses a text that cannot annotate an address.
pub fn validate_annotation(annotation: &str) -> (r: Result<(), TrackerError>)
    ensures
        match annotation_fault(annotation@) {
            Some(fault) => r == Err::<(), TrackerError>(fault),
            None => r is Ok,
        },
{
    if annotation.is_empty() {
        return Err(TrackerError::AnnotationEmpty);
    }
    if annotation.as_bytes().len() > MAX_ANNOTATION_BYTES {
        return Err(TrackerError::AnnotationTooLong);
    }
    Ok(())
}

/// The index after an index, up to the greatest number.
pub open spec fn index_after(index: u32) -> u32 {
    if index == u32::MAX {
        index
    } else {
        (index + 1) as u32
    }
}

/// The index after an index, up to the greatest number.
fn next_index(index: u32) -> (r: u32)
    ensures
        r == index_after(index),
{
    if index == u32::MAX {
        index
    } else {
        index + 1
    }
}

/// The greater of two indexes.
pub open spec fn larger(a: u32, b: u32) -> u32 {
    if a > b {
        a
    } else {
        b
    }
}

/// The greater of two indexes.
fn larger_index(a: u32, b: u32) -> (r: u32)
    ensures
        r == larger(a, b),
{
    if a > b {
        a
    } else {
        b
    }
}

/// The index after the outputs of a row that are of a branch.
pub open spec fn observed_next(outputs: Seq<UtxoModel>, branch: u32) -> u32
    decreases outputs.len(),
{
    if outputs.len() == 0 {
        0
    } else {
        let rest = observed_next(outputs.drop_last(), branch);
        if outputs.last().branch == branch {
            larger(rest, index_after(outputs.last().derivation_index))
        } else {
            rest
        }
    }
}

/// The index after the addresses of a row that are of a branch.
pub open spec fn issued_next(book: Seq<IssuedModel>, branch: u32) -> u32
    decreases book.len(),
{
    if book.len() == 0 {
        0
    } else {
        let rest = issued_next(book.drop_last(), branch);
        if book.last().branch == branch {
            larger(rest, index_after(book.last().index))
        } else {
            rest
        }
    }
}

/// The index of the next address of a branch: after the cursor, every output
/// that was seen and every address that was given out, and no less than asked.
pub open spec fn allocated_index(
    record: RecordModel,
    book: Seq<IssuedModel>,
    branch: u32,
    minimum: Option<u32>,
) -> u32 {
    let cursor = if record.next_indexes.contains_key(branch) {
        record.next_indexes[branch]
    } else {
        0
    };
    let next = larger(
        larger(cursor, observed_next(sorted_values(record.utxos), branch)),
        issued_next(book, branch),
    );
    larger(
        next,
        match minimum {
            Some(minimum) => minimum,
            None => 0,
        },
    )
}

/// The index of the next address of a branch.
fn allocate_index(
    record: &DescriptorRecord,
    book: &Vec<IssuedAddress>,
    branch: u32,
    minimum: Option<u32>,
) -> (r: u32)
    ensures
        r == allocated_index(record@, models(book@), branch, minimum),
{
    let outputs = &record.utxos;
    let ghost keys = sorted_keys(outputs@.dom());
    let ghost all = sorted_values(outputs@);
    let n = outputs.len();
    let mut observed: u32 = 0;
    let mut i: usize = 0;
    while i < n
        invariant
            i <= n,
            n == keys.len(),
            n == outputs@.dom().len(),
            keys == sorted_keys(outputs@.dom()),
            all == sorted_values(outputs@),
            observed == observed_next(all.take(i as int), branch),
        decreases n - i,
    {
        let (_, output) = outputs.at(i);
        assert(all[i as int] == output@);
        assert(all.take(i + 1).drop_last() =~= all.take(i as int));
        if output.branch == branch {
            observed = larger_index(observed, next_index(output.derivation_index));
        }
        i = i + 1;
    }
    assert(all.take(i as int) =~= all);
    let ghost addresses = models(book@);
    let mut issued: u32 = 0;
    let mut j: usize = 0;
    while j < book.len()
        invariant
            j <= book.len(),
            addresses == models(book@),
            issued == issued_next(addresses.take(j as int), branch),
        decreases book.len() - j,
    {
        assert(addresses[j as int] == book[j as int]@);
        assert(addresses.take(j + 1).drop_last() =~= addresses.take(j as int));
        if book[j].branch == branch {
            issued = larger_index(issued, next_index(book[j].index));
        }
        j = j + 1;
    }
    assert(addresses.take(j as int) =~= addresses);
    let cursor: u32 = match index_at(&record.next_indexes, branch) {
        Some(next) => next,
        None => 0,
    };
    let next = larger_index(larger_index(cursor, observed), issued);
    let minimum: u32 = match minimum {
        Some(minimum) => minimum,
        None => 0,
    };
    larger_index(next, minimum)
}

/// The first index that is not given out any more.
pub const LAST_INDEX: u32 = 0x7fff_ffff;

/// The address that is given out for a branch of a descriptor.
pub open spec fn allocation(
    state: StateModel,
    name: Seq<char>,
    branch: u32,
    annotation: Option<Seq<char>>,
    minimum: Option<u32>,
    now: u64,
) -> Result<IssuedModel, RefusalModel> {
    if annotation is Some && annotation_fault(annotation->Some_0) is Some {
        Err(refusal_of(annotation_fault(annotation->Some_0)->Some_0, name))
    } else if state.active_scans.contains_key(name) {
        Err(refusal_of(TrackerError::ScanActive, name))
    } else {
        match known(state, name) {
            Err(refusal) => Err(refusal),
            Ok(record) => if record.status != DescriptorStatus::Active
                || !record.initial_scan_complete {
                Err(refusal_of(TrackerError::NotReady, name))
            } else {
                match config_set(record.config, state.network) {
                    Err(e) => Err(refusal_for(e, state.network)),
                    Ok(set) => if !set.ranged {
                        Err(refusal_of(TrackerError::StaticIssue, name))
                    } else if branch >= set.branches {
                        Err(refusal_of(TrackerError::NoSuchBranch { branch }, name))
                    } else {
                        let index = allocated_index(record, book_of(state, name), branch, minimum);
                        if index >= LAST_INDEX {
                            Err(refusal_of(TrackerError::IndexTooLarge, name))
                        } else {
                            match (
                                place_result(set, branch, index),
                                address_result(set, branch, index, state.network),
                            ) {
                                (Err(e), _) => Err(refusal_for(e, name)),
                                (Ok(_), Err(e)) => Err(refusal_for(e, name)),
                                (Ok(script), Ok(address)) => Ok(
                                    IssuedModel {
                                        name,
                                        branch,
                                        index,
                                        address,
                                        scriptpubkey: script.scriptpubkey,
                                        annotation,
                                        issued_at: now,
                                        generation: None,
                                    },
                                ),
                            }
                        }
                    },
                }
            },
        }
    }
}

/// Gives out the next address of a branch of a descriptor.
pub fn new_address(state: &AppState, request: &NewAddressRequest, now: u64) -> (r: Result<
    IssuedAddress,
    Refusal,
>)
    ensures
        (match r {
            Ok(issued) => Ok(issued@),
            Err(e) => Err(e@),
        }) == allocation(
            state@,
            request.name@,
            request.branch,
            opt_text(request.annotation),
            request.minimum_index,
            now,
        ),
{
    let name = request.name.as_str();
    let network = state.network.as_str();
    match &request.annotation {
        Some(annotation) => match validate_annotation(annotation.as_str()) {
            Err(e) => {
                return Err(Refusal::of(e, name));
            },
            Ok(_) => {},
        },
        None => {},
    }
    match state.ensure_no_active_scan(name) {
        Err(e) => {
            return Err(e);
        },
        Ok(_) => {},
    }
    let record = match known_record(state, name) {
        Err(e) => {
            return Err(e);
        },
        Ok(record) => record,
    };
    if record.status != DescriptorStatus::Active || !record.initial_scan_complete {
        return Err(Refusal::of(TrackerError::NotReady, name));
    }
    let descriptor = match validate_config(&record.config, network) {
        Err(e) => {
            return Err(e.about(network));
        },
        Ok(descriptor) => descriptor,
    };
    if !descriptor.is_ranged() {
        return Err(Refusal::of(TrackerError::StaticIssue, name));
    }
    let branch = request.branch;
    if branch as u64 >= descriptor.branch_count() as u64 {
        return Err(Refusal::of(TrackerError::NoSuchBranch { branch }, name));
    }
    let book = state.issued_addresses(name);
    let index = allocate_index(record, &book, branch, request.minimum_index);
    if index >= LAST_INDEX {
        return Err(Refusal::of(TrackerError::IndexTooLarge, name));
    }
    let script = match descriptor.derive_one(branch, index) {
        Err(e) => {
            return Err(e.about(name));
        },
        Ok(script) => script,
    };
    match descriptor.derive_address(branch, index, network) {
        Err(e) => Err(e.about(name)),
        Ok(address) => Ok(
            IssuedAddress {
                name: request.name.clone(),
                branch,
                index,
                address,
                scriptpubkey: script.scriptpubkey,
                annotation: copy_text(&request.annotation),
                issued_at: now,
                generation: None,
            },
        ),
    }
}

/// A record whose branch is watched beyond an address that was given out.
pub open spec fn advanced(record: RecordModel, branch: u32, index: u32) -> Result<
    RecordModel,
    TrackerError,
> {
    let moved = RecordModel {
        next_indexes: record.next_indexes.insert(branch, index_after(index)),
        ..record
    };
    match desired_end(frontier(moved, branch), record.config.lookahead) {
        Err(e) => Err(e),
        Ok(end) => Ok(
            refreshed(RecordModel { range_ends: moved.range_ends.insert(branch, end), ..moved }),
        ),
    }
}

/// The record of a descriptor after an address was given out, where no other
/// descriptor watches any of its scripts.
pub open spec fn extension(
    state: StateModel,
    name: Seq<char>,
    branch: u32,
    index: u32,
) -> Result<RecordModel, RefusalModel> {
    match known(state, name) {
        Err(refusal) => Err(refusal),
        Ok(record) => match config_set(record.config, state.network) {
            Err(e) => Err(refusal_for(e, state.network)),
            Ok(set) => match advanced(record, branch, index) {
                Err(e) => Err(refusal_of(e, name)),
                Ok(moved) => match watched_scripts(moved, set) {
                    Err(e) => Err(refusal_for(e, name)),
                    Ok(scripts) => match overlap_refusal(
                        moved.config.name,
                        scripts,
                        state.inner.records,
                        state.network,
                    ) {
                        Some(refusal) => Err(refusal),
                        None => Ok(RecordModel { status: DescriptorStatus::Syncing, ..moved }),
                    },
                },
            },
        },
    }
}

/// Moves the cursor of a branch beyond an address that was given out, and
/// extends what is watched.
pub fn extend_for_address(state: &AppState, issued: &IssuedAddress) -> (r: Result<
    DescriptorRecord,
    Refusal,
>)
    ensures
        record_result(r) == extension(state@, issued@.name, issued@.branch, issued@.index),
{
    let name = issued.name.as_str();
    let network = state.network.as_str();
    let record = match known_record(state, name) {
        Err(e) => {
            return Err(e);
        },
        Ok(record) => record,
    };
    let descriptor = match validate_config(&record.config, network) {
        Err(e) => {
            return Err(e.about(network));
        },
        Ok(descriptor) => descriptor,
    };
    let mut moved = record.duplicate();
    set_end(&mut moved.next_indexes, issued.branch, next_index(issued.index), false);
    match desired_branch_range_end(&moved, issued.branch, moved.config.lookahead) {
        Err(e) => {
            return Err(Refusal::of(e, name));
        },
        Ok(end) => {
            set_end(&mut moved.range_ends, issued.branch, end, false);
        },
    }
    refresh_aggregate_indexes(&mut moved);
    let scripts = match descriptor_scripts(&moved, &descriptor) {
        Err(e) => {
            return Err(e.about(name));
        },
        Ok(scripts) => scripts,
    };
    match ensure_no_script_overlap(
        moved.config.name.as_str(),
        &scripts,
        state.records_snapshot(),
        network,
    ) {
        Err(e) => Err(e),
        Ok(_) => {
            moved.status = DescriptorStatus::Syncing;
            Ok(moved)
        },
    }
}

/// The answer to a request for an address.
pub open spec fn address_shown(record: RecordModel, issued: IssuedModel) -> JsonModel {
    JsonModel::Object(
        no_fields()
            .push(("name"@, JsonModel::Text(record.config.name)))
            .push(("branch"@, JsonModel::Number(issued.branch as u64)))
            .push(("index"@, JsonModel::Number(issued.index as u64)))
            .push(("address"@, JsonModel::Text(issued.address)))
            .push(("scriptpubkey"@, JsonModel::Text(issued.scriptpubkey)))
            .push(("annotation"@, text_or_null(issued.annotation)))
            .push(
                (
                    "next_index"@,
                    if record.next_indexes.contains_key(issued.branch) {
                        JsonModel::Number(record.next_indexes[issued.branch] as u64)
                    } else {
                        JsonModel::Null
                    },
                ),
            )
            .push(("lookahead"@, JsonModel::Number(record.config.lookahead as u64)))
            .push(("range_end"@, JsonModel::Number(record.range_end as u64)))
            .push(("range_ends"@, indexes_shown(record.range_ends))),
    )
}

/// The answer to a request for an address.
pub fn address_view(record: &DescriptorRecord, issued: &IssuedAddress) -> (r: Json)
    ensures
        r@ == address_shown(record@, issued@),
{
    let mut fields = Fields::new();
    fields.put_text("name", record.config.name.as_str());
    fields.put_number("branch", issued.branch as u64);
    fields.put_number("index", issued.index as u64);
    fields.put_text("address", issued.address.as_str());
    fields.put_text("scriptpubkey", issued.scriptpubkey.as_str());
    fields.put("annotation", Json::of_optional_text(&issued.annotation));
    fields.put(
        "next_index",
        match index_at(&record.next_indexes, issued.branch) {
            Some(next) => Json::Number(next as u64),
            None => Json::Null,
        },
    );
    fields.put_number("lookahead", record.config.lookahead as u64);
    fields.put_number("range_end", record.range_end as u64);
    fields.put("range_ends", show_indexes(&record.range_ends));
    fields.done()
}

/// The addresses of a row that are of a branch and at or after an index.
pub open spec fn branch_addresses(
    book: Seq<IssuedModel>,
    branch: u32,
    start: Option<u32>,
) -> Seq<IssuedModel>
    decreases book.len(),
{
    if book.len() == 0 {
        Seq::empty()
    } else {
        let rest = branch_addresses(book.drop_last(), branch, start);
        if book.last().branch == branch && at_or_after(book.last().index, start) {
            rest.push(book.last())
        } else {
            rest
        }
    }
}

/// An index is at or after a start, where there is one.
pub open spec fn at_or_after(index: u32, start: Option<u32>) -> bool {
    match start {
        Some(start) => index >= start,
        None => true,
    }
}

/// A page of addresses: the first ones, up to a limit.
pub open spec fn page_of(addresses: Seq<IssuedModel>, limit: u32) -> Seq<IssuedModel> {
    if addresses.len() > limit {
        addresses.take(limit as int)
    } else {
        addresses
    }
}

/// Where the next page starts, if there is one.
pub open spec fn next_start(addresses: Seq<IssuedModel>, limit: u32) -> Option<u32> {
    if addresses.len() > limit {
        Some(index_after(addresses[limit - 1].index))
    } else {
        None
    }
}

/// The answer to a listing of addresses.
pub open spec fn address_listing(
    state: StateModel,
    name: Seq<char>,
    branch: u32,
    start: Option<u32>,
    limit: u32,
) -> Result<JsonModel, RefusalModel> {
    if !(1 <= limit <= 1000) {
        Err(refusal_of(TrackerError::LimitOutOfRange, name))
    } else {
        match known(state, name) {
            Err(refusal) => Err(refusal),
            Ok(_) => {
                let addresses = branch_addresses(book_of(state, name), branch, start);
                Ok(
                    JsonModel::Object(
                        no_fields()
                            .push(("name"@, JsonModel::Text(name)))
                            .push(("branch"@, JsonModel::Number(branch as u64)))
                            .push(
                                (
                                    "addresses"@,
                                    row_shown::<IssuedAddress>(page_of(addresses, limit)),
                                ),
                            )
                            .push(
                                (
                                    "next_start"@,
                                    number_or_null(
                                        crate::views::wide(next_start(addresses, limit)),
                                    ),
                                ),
                            ),
                    ),
                )
            },
        }
    }
}

/// Lists the addresses of a branch of a descriptor, a page at a time.
pub fn list_addresses(state: &AppState, request: &ListAddressesRequest) -> (r: Result<
    Json,
    Refusal,
>)
    ensures
        json_result(r) == address_listing(
            state@,
            request.name@,
            request.branch,
            request.start,
            request.limit,
        ),
{
    let name = request.name.as_str();
    let limit = request.limit;
    if limit < 1 || limit > 1000 {
        return Err(Refusal::of(TrackerError::LimitOutOfRange, name));
    }
    match known_record(state, name) {
        Err(e) => {
            return Err(e);
        },
        Ok(_) => {},
    }
    let book = state.issued_addresses(name);
    let ghost all = models(book@);
    let ghost wanted = branch_addresses(all, request.branch, request.start);
    let mut page: Vec<IssuedAddress> = Vec::new();
    let mut more = false;
    let mut i: usize = 0;
    assert(models(page@) =~= Seq::<IssuedModel>::empty());
    while i < book.len()
        invariant
            i <= book.len(),
            1 <= limit <= 1000,
            all == models(book@),
            page.len() <= limit,
            models(page@) == page_of(
                branch_addresses(all.take(i as int), request.branch, request.start),
                limit,
            ),
            more == (branch_addresses(
                all.take(i as int),
                request.branch,
                request.start,
            ).len() > limit),
        decreases book.len() - i,
    {
        let ghost rest = branch_addresses(all.take(i as int), request.branch, request.start);
        assert(all[i as int] == book[i as int]@);
        assert(all.take(i + 1).drop_last() =~= all.take(i as int));
        let wanted_here = book[i].branch == request.branch && match request.start {
            Some(start) => book[i].index >= start,
            None => true,
        };
        if wanted_here {
            assert(branch_addresses(all.take(i + 1), request.branch, request.start) == rest.push(
                all[i as int],
            ));
            if page.len() < limit as usize {
                let ghost before = models(page@);
                let copy = book[i].duplicate();
                page.push(copy);
                assert(models(page@) =~= before.push(copy@));
                assert(before =~= rest);
            } else {
                more = true;
                assert(rest.push(all[i as int]).take(limit as int) =~= models(page@)) by {
                    if rest.len() > limit {
                        assert(rest.push(all[i as int]).take(limit as int) =~= rest.take(
                            limit as int,
                        ));
                    } else {
                        assert(rest.len() == limit);
                        assert(rest.push(all[i as int]).take(limit as int) =~= rest);
                    }
                }
            }
        }
        i = i + 1;
    }
    assert(all.take(i as int) =~= all);
    let next: Option<u64> = if more {
        let last = page.len() - 1;
        assert(models(page@)[last as int] == wanted[limit - 1]);
        Some(next_index(page[last].index) as u64)
    } else {
        None
    };
    let mut fields = Fields::new();
    fields.put_text("name", name);
    fields.put_number("branch", request.branch as u64);
    fields.put("addresses", show_list(&page));
    fields.put("next_start", Json::of_number(next));
    Ok(fields.done())
}

/// The index after the outputs of a row is beyond each of them.
proof fn observed_next_is_beyond(outputs: Seq<UtxoModel>, branch: u32, i: int)
    requires
        0 <= i < outputs.len(),
        outputs[i].branch == branch,
    ensures
        observed_next(outputs, branch) >= index_after(outputs[i].derivation_index),
    decreases outputs.len(),
{
    if i < outputs.len() - 1 {
        assert(outputs.drop_last()[i] == outputs[i]);
        observed_next_is_beyond(outputs.drop_last(), branch, i);
    }
}

/// The index after the addresses of a row is beyond each of them.
proof fn issued_next_is_beyond(book: Seq<IssuedModel>, branch: u32, i: int)
    requires
        0 <= i < book.len(),
        book[i].branch == branch,
    ensures
        issued_next(book, branch) >= index_after(book[i].index),
    decreases book.len(),
{
    if i < book.len() - 1 {
        assert(book.drop_last()[i] == book[i]);
        issued_next_is_beyond(book.drop_last(), branch, i);
    }
}

/// An address is given out once: its index is beyond every address of its
/// branch that was given out before and every output of its branch that was
/// seen.
pub proof fn address_is_new(
    state: StateModel,
    name: Seq<char>,
    branch: u32,
    annotation: Option<Seq<char>>,
    minimum: Option<u32>,
    now: u64,
)
    requires
        allocation(state, name, branch, annotation, minimum, now) is Ok,
        state.inner.records[name].utxos.dom().finite(),
    ensures
        ({
            let issued = allocation(state, name, branch, annotation, minimum, now)->Ok_0;
            let record = state.inner.records[name];
            &&& forall|x: IssuedModel| #[trigger]
                book_of(state, name).contains(x) && x.branch == branch ==> x.index < issued.index
            &&& forall|key: Seq<char>| #[trigger]
                record.utxos.contains_key(key) && record.utxos[key].branch == branch
                    ==> record.utxos[key].derivation_index < issued.index
            &&& record.next_indexes.contains_key(branch) ==> record.next_indexes[branch]
                <= issued.index
            &&& minimum is Some ==> minimum->Some_0 <= issued.index
        }),
{
    let issued = allocation(state, name, branch, annotation, minimum, now)->Ok_0;
    let record = state.inner.records[name];
    let book = book_of(state, name);
    assert forall|x: IssuedModel| #[trigger]
        book.contains(x) && x.branch == branch implies x.index < issued.index by {
        let i = choose|i: int| 0 <= i < book.len() && book[i] == x;
        issued_next_is_beyond(book, branch, i);
    }
    let keys = sorted_keys(record.utxos.dom());
    let outputs = sorted_values(record.utxos);
    crate::ordered::sorted_keys_of(record.utxos.dom());
    assert forall|key: Seq<char>| #[trigger]
        record.utxos.contains_key(key) && record.utxos[key].branch
            == branch implies record.utxos[key].derivation_index < issued.index by {
        assert(keys.to_set().contains(key));
        let i = choose|i: int| 0 <= i < keys.len() && keys[i] == key;
        assert(outputs[i] == record.utxos[key]);
        observed_next_is_beyond(outputs, branch, i);
    }
}

/// After an address was given out its branch is watched a whole lookahead
/// beyond it.
pub proof fn address_is_watched(state: StateModel, name: Seq<char>, branch: u32, index: u32)
    requires
        extension(state, name, branch, index) is Ok,
        index < LAST_INDEX,
    ensures
        ({
            let record = extension(state, name, branch, index)->Ok_0;
            &&& record.range_ends.contains_key(branch)
            &&& record.range_ends[branch] >= index + 1 + record.config.lookahead
            &&& record.next_indexes[branch] == index + 1
        }),
{
}

/// The addresses of a branch stand by index.
proof fn branch_addresses_ascend(book: Seq<IssuedModel>, branch: u32, start: Option<u32>)
    requires
        in_place_order(book),
    ensures
        ({
            let addresses = branch_addresses(book, branch, start);
            &&& forall|i: int| 0 <= i < addresses.len() ==> book.contains(#[trigger] addresses[i])
            &&& forall|i: int|
                0 <= i < addresses.len() ==> (#[trigger] addresses[i]).branch == branch
                    && at_or_after(addresses[i].index, start)
            &&& forall|i: int, j: int|
                0 <= i < j < addresses.len() ==> (#[trigger] addresses[i]).index < (
                #[trigger] addresses[j]).index
        }),
    decreases book.len(),
{
    if book.len() > 0 {
        let rest = book.drop_last();
        branch_addresses_ascend(rest, branch, start);
        let before = branch_addresses(rest, branch, start);
        assert forall|i: int| 0 <= i < before.len() implies book.contains(#[trigger] before[i])
            && (before[i].branch == book.last().branch ==> before[i].index < book.last().index) by {
            assert(rest.contains(before[i]));
            let n = choose|n: int| 0 <= n < rest.len() && rest[n] == before[i];
            assert(book[n] == before[i]);
            assert(crate::state::place_before(book[n], book[book.len() - 1]));
        }
        assert(book.contains(book[book.len() - 1]));
    }
}

/// With a later start, the addresses before it fall away and the rest stay.
proof fn later_start(
    book: Seq<IssuedModel>,
    branch: u32,
    start: Option<u32>,
    later: u32,
    count: int,
)
    requires
        at_or_after(later, start),
        0 <= count <= branch_addresses(book, branch, start).len(),
        forall|i: int|
            0 <= i < count ==> (#[trigger] branch_addresses(book, branch, start)[i]).index < later,
        forall|i: int|
            count <= i < branch_addresses(book, branch, start).len() ==> (
            #[trigger] branch_addresses(book, branch, start)[i]).index >= later,
    ensures
        branch_addresses(book, branch, Some(later)) == branch_addresses(book, branch, start).skip(
            count,
        ),
    decreases book.len(),
{
    let all = branch_addresses(book, branch, start);
    if book.len() > 0 {
        let rest = book.drop_last();
        let before = branch_addresses(rest, branch, start);
        let taken = book.last().branch == branch && at_or_after(book.last().index, start);
        if taken {
            assert(all == before.push(book.last()));
            assert forall|i: int| 0 <= i < before.len() implies #[trigger] before[i] == all[i] by {}
            if count == all.len() {
                later_start(rest, branch, start, later, count - 1);
                assert(all[count - 1] == book.last());
                assert(before.skip(count - 1) =~= all.skip(count));
            } else {
                later_start(rest, branch, start, later, count);
                assert(all[all.len() - 1] == book.last());
                assert(before.skip(count).push(book.last()) =~= all.skip(count));
            }
        } else {
            later_start(rest, branch, start, later, count);
        }
    } else {
        assert(all.skip(count) =~= Seq::<IssuedModel>::empty());
    }
}

/// The next page holds exactly the addresses that follow those of a page: going
/// from page to page shows each address once.
pub proof fn pages_follow_each_other(
    book: Seq<IssuedModel>,
    branch: u32,
    start: Option<u32>,
    limit: u32,
)
    requires
        in_place_order(book),
        1 <= limit,
        next_start(branch_addresses(book, branch, start), limit) is Some,
    ensures
        ({
            let addresses = branch_addresses(book, branch, start);
            branch_addresses(book, branch, next_start(addresses, limit)) == addresses.skip(
                limit as int,
            )
        }),
{
    let addresses = branch_addresses(book, branch, start);
    branch_addresses_ascend(book, branch, start);
    let last = addresses[limit - 1];
    assert(last.index < addresses[limit as int].index);
    let later = index_after(last.index);
    assert forall|i: int| 0 <= i < limit implies (#[trigger] addresses[i]).index < later by {
        if i < limit - 1 {
            assert(addresses[i].index < addresses[limit - 1].index);
        }
    }
    assert forall|i: int| limit <= i < addresses.len() implies (#[trigger] addresses[i]).index
        >= later by {
        assert(addresses[limit - 1].index < addresses[i].index);
    }
    later_start(book, branch, start, later, limit as int);
}

/// The index after the outputs of a branch is zero or follows one of them.
proof fn observed_next_follows(outputs: Seq<UtxoModel>, branch: u32)
    ensures
        observed_next(outputs, branch) == 0 || exists|i: int|
            0 <= i < outputs.len() && (#[trigger] outputs[i]).branch == branch && observed_next(
                outputs,
                branch,
            ) == index_after(outputs[i].derivation_index),
    decreases outputs.len(),
{
    if outputs.len() > 0 {
        let rest = outputs.drop_last();
        observed_next_follows(rest, branch);
        let next = observed_next(outputs, branch);
        if next != 0 {
            if outputs.last().branch == branch && next == index_after(
                outputs.last().derivation_index,
            ) {
                assert(outputs[outputs.len() - 1].branch == branch);
            } else {
                let i = choose|i: int|
                    0 <= i < rest.len() && (#[trigger] rest[i]).branch == branch && next
                        == index_after(rest[i].derivation_index);
                assert(outputs[i].branch == branch);
            }
        }
    }
}

/// The index after the addresses of a branch is zero or follows one of them.
proof fn issued_next_follows(book: Seq<IssuedModel>, branch: u32)
    ensures
        issued_next(book, branch) == 0 || exists|i: int|
            0 <= i < book.len() && (#[trigger] book[i]).branch == branch && issued_next(
                book,
                branch,
            ) == index_after(book[i].index),
    decreases book.len(),
{
    if book.len() > 0 {
        let rest = book.drop_last();
        issued_next_follows(rest, branch);
        let next = issued_next(book, branch);
        if next != 0 {
            if book.last().branch == branch && next == index_after(book.last().index) {
                assert(book[book.len() - 1].branch == branch);
            } else {
                let i = choose|i: int|
                    0 <= i < rest.len() && (#[trigger] rest[i]).branch == branch && next
                        == index_after(rest[i].index);
                assert(book[i].branch == branch);
            }
        }
    }
}

/// No index is passed over: the index of an address that is given out is zero, the
/// cursor of its branch, the one that was asked for, or follows an output that was
/// seen or an address that was given out on the branch.
pub proof fn address_is_the_next_one(
    state: StateModel,
    name: Seq<char>,
    branch: u32,
    annotation: Option<Seq<char>>,
    minimum: Option<u32>,
    now: u64,
)
    requires
        allocation(state, name, branch, annotation, minimum, now) is Ok,
        state.inner.records[name].utxos.dom().finite(),
    ensures
        ({
            let index = allocation(state, name, branch, annotation, minimum, now)->Ok_0.index;
            let record = state.inner.records[name];
            ||| index == 0
            ||| record.next_indexes.contains_key(branch) && index == record.next_indexes[branch]
            ||| minimum == Some(index)
            ||| exists|key: Seq<char>| #[trigger]
                record.utxos.contains_key(key) && record.utxos[key].branch == branch && index
                    == record.utxos[key].derivation_index + 1
            ||| exists|x: IssuedModel| #[trigger]
                book_of(state, name).contains(x) && x.branch == branch && index == x.index + 1
        }),
{
    let index = allocation(state, name, branch, annotation, minimum, now)->Ok_0.index;
    let record = state.inner.records[name];
    let book = book_of(state, name);
    let keys = sorted_keys(record.utxos.dom());
    let outputs = sorted_values(record.utxos);
    crate::ordered::sorted_keys_of(record.utxos.dom());
    observed_next_follows(outputs, branch);
    issued_next_follows(book, branch);
    if index != 0 && index == observed_next(outputs, branch) {
        let i = choose|i: int|
            0 <= i < outputs.len() && (#[trigger] outputs[i]).branch == branch && index
                == index_after(outputs[i].derivation_index);
        assert(keys.contains(keys[i]));
        assert(keys.to_set().contains(keys[i]));
        assert(record.utxos.contains_key(keys[i]));
        assert(record.utxos[keys[i]] == outputs[i]);
    } else if index != 0 && index == issued_next(book, branch) {
        let i = choose|i: int|
            0 <= i < book.len() && (#[trigger] book[i]).branch == branch && index == index_after(
                book[i].index,
            );
        assert(book.contains(book[i]));
    }
}

/// An address that is given out is the one that the descriptor derives for its own
/// branch and index on the network, with the script of the same place, for the
/// descriptor and with the annotation that were asked for. It is given out where
/// the descriptor is known, active, scanned and not being scanned, has a wildcard
/// and the branch, and the annotation is not empty and not too long.
pub proof fn address_is_of_its_place(
    state: StateModel,
    name: Seq<char>,
    branch: u32,
    annotation: Option<Seq<char>>,
    minimum: Option<u32>,
    now: u64,
)
    ensures
        allocation(state, name, branch, annotation, minimum, now) matches Ok(issued) ==> {
            let text = state.inner.records[name].config.descriptor;
            &&& issued.name == name
            &&& issued.branch == branch
            &&& issued.annotation == annotation
            &&& issued.issued_at == now
            &&& issued.generation is None
            &&& issued.index < 0x7fff_ffff
            &&& address_at(text, branch, issued.index, state.network) == Ok::<
                Seq<char>,
                Seq<char>,
            >(issued.address)
            &&& script_at(text, branch, issued.index) matches Ok(bytes) && hex_text(bytes)
                == issued.scriptpubkey
        },
        allocation(state, name, branch, annotation, minimum, now) is Ok ==> {
            let record = state.inner.records[name];
            &&& state.inner.records.contains_key(name)
            &&& !state.active_scans.contains_key(name)
            &&& record.status == DescriptorStatus::Active
            &&& record.initial_scan_complete
            &&& config_set(record.config, state.network) is Ok
            &&& config_set(record.config, state.network)->Ok_0.ranged
            &&& branch < config_set(record.config, state.network)->Ok_0.branches
            &&& annotation matches Some(text) ==> 0 < text.len() && vstd::utf8::encode_utf8(
                text,
            ).len() <= 1_024
        },
{
    accepted_configuration_is_sound(state.inner.records[name].config, state.network);
}

/// An address is not refused where all of that holds and the place can be derived.
pub proof fn address_is_given_out(
    state: StateModel,
    name: Seq<char>,
    branch: u32,
    annotation: Option<Seq<char>>,
    minimum: Option<u32>,
    now: u64,
)
    requires
        state.inner.records.contains_key(name),
        !state.active_scans.contains_key(name),
        state.inner.records[name].status == DescriptorStatus::Active,
        state.inner.records[name].initial_scan_complete,
        config_set(state.inner.records[name].config, state.network) is Ok,
        config_set(state.inner.records[name].config, state.network)->Ok_0.ranged,
        branch < config_set(state.inner.records[name].config, state.network)->Ok_0.branches,
        annotation matches Some(text) ==> 0 < text.len() && vstd::utf8::encode_utf8(text).len()
            <= 1_024,
        forall|i: u32|
            (#[trigger] script_at(state.inner.records[name].config.descriptor, branch, i)) is Ok
                && address_at(
                state.inner.records[name].config.descriptor,
                branch,
                i,
                state.network,
            ) is Ok,
    ensures
        ({
            let record = state.inner.records[name];
            let next = allocated_index(record, book_of(state, name), branch, minimum);
            allocation(state, name, branch, annotation, minimum, now) is Ok <==> next
                < 0x7fff_ffff
        }),
{
    accepted_configuration_is_sound(state.inner.records[name].config, state.network);
    let record = state.inner.records[name];
    let next = allocated_index(record, book_of(state, name), branch, minimum);
    assert(script_at(record.config.descriptor, branch, next) is Ok);
}

/// After an address was given out its cursor is the next index, its branch is
/// watched exactly a lookahead beyond the last index that was used or given out,
/// and the other branches, the outputs and what waits are as before.
pub proof fn given_address_moves_its_branch(
    state: StateModel,
    name: Seq<char>,
    branch: u32,
    index: u32,
    other: u32,
)
    requires
        extension(state, name, branch, index) is Ok,
        index < 0x7fff_ffff,
    ensures
        ({
            let before = state.inner.records[name];
            let after = extension(state, name, branch, index)->Ok_0;
            let used = before.last_used_indexes;
            let last = if used.contains_key(branch) && used[branch] > index {
                used[branch]
            } else {
                index
            };
            &&& state.inner.records.contains_key(name)
            &&& after.next_indexes.contains_key(branch)
            &&& after.next_indexes[branch] == index + 1
            &&& after.range_ends.contains_key(branch)
            &&& after.range_ends[branch] == last + 1 + before.config.lookahead
            &&& other != branch ==> after.next_indexes.contains_key(other)
                == before.next_indexes.contains_key(other) && after.next_indexes[other]
                == before.next_indexes[other]
            &&& other != branch ==> after.range_ends.contains_key(other)
                == before.range_ends.contains_key(other) && after.range_ends[other]
                == before.range_ends[other]
            &&& after.last_used_indexes == before.last_used_indexes
            &&& after.utxos == before.utxos
            &&& after.pending_movements == before.pending_movements
            &&& after.external_outpoints == before.external_outpoints
            &&& after.config == before.config
            &&& after.initial_scan_complete == before.initial_scan_complete
            &&& after.generation == before.generation
            &&& after.status == DescriptorStatus::Syncing
        }),
{
}

/// An annotation is accepted exactly where it is not empty and has no more than
/// a kibibyte.
pub proof fn annotation_is_bounded(annotation: Seq<char>)
    ensures
        annotation_fault(annotation) is None <==> annotation.len() > 0
            && vstd::utf8::encode_utf8(annotation).len() <= 1_024,
        annotation.len() == 0 ==> annotation_fault(annotation) == Some(
            TrackerError::AnnotationEmpty,
        ),
{
}

/// A listing holds exactly the addresses of its branch at or after its start.
pub proof fn listing_is_of_the_branch(
    book: Seq<IssuedModel>,
    branch: u32,
    start: Option<u32>,
    address: IssuedModel,
)
    ensures
        branch_addresses(book, branch, start).contains(address) <==> book.contains(address)
            && address.branch == branch && (start is None || address.index >= start->Some_0),
    decreases book.len(),
{
    if book.len() > 0 {
        let rest = book.drop_last();
        listing_is_of_the_branch(rest, branch, start, address);
        assert(book =~= rest.push(book.last()));
        crate::ordered::push_contains(rest, book.last(), address);
        crate::ordered::push_contains(
            branch_addresses(rest, branch, start),
            book.last(),
            address,
        );
    }
}

/// A page holds the first addresses of a listing, as many as the limit, or all of
/// them. The next page begins after the last address of the page, and there is
/// one exactly where addresses are left.
pub proof fn page_is_the_beginning(addresses: Seq<IssuedModel>, limit: u32)
    requires
        1 <= limit,
    ensures
        page_of(addresses, limit).len() == (if addresses.len() < limit {
            addresses.len() as int
        } else {
            limit as int
        }),
        forall|i: int|
            0 <= i < page_of(addresses, limit).len() ==> #[trigger] page_of(addresses, limit)[i]
                == addresses[i],
        next_start(addresses, limit) is Some <==> addresses.len() > limit,
        addresses.len() > limit && addresses[limit - 1].index < u32::MAX ==> next_start(
            addresses,
            limit,
        ) == Some((page_of(addresses, limit).last().index + 1) as u32),
{
}

/// A listing is refused exactly where its limit is out of bounds or the descriptor
/// is not known, and shows what it was asked for.
pub proof fn listing_is_as_asked(
    state: StateModel,
    name: Seq<char>,
    branch: u32,
    start: Option<u32>,
    limit: u32,
)
    ensures
        address_listing(state, name, branch, start, limit) is Ok <==> 1 <= limit <= 1_000
            && state.inner.records.contains_key(name),
        address_listing(state, name, branch, start, limit) matches Ok(shown) ==> {
            let addresses = branch_addresses(book_of(state, name), branch, start);
            &&& shown.text_field("name"@) == Some(name)
            &&& shown.number_field("branch"@) == Some(branch as u64)
            &&& shown.field("addresses"@) == Some(
                row_shown::<IssuedAddress>(page_of(addresses, limit)),
            )
            &&& next_start(addresses, limit) is None ==> shown.field("next_start"@) == Some(
                JsonModel::Null,
            )
            &&& next_start(addresses, limit) matches Some(next) ==> shown.number_field(
                "next_start"@,
            ) == Some(next as u64)
        },
{
    match address_listing(state, name, branch, start, limit) {
        Ok(shown) => {
            reveal_strlit("name");
            reveal_strlit("branch");
            reveal_strlit("addresses");
            reveal_strlit("next_start");
            assert("name"@.len() == 4 && "branch"@.len() == 6);
            assert("addresses"@.len() == 9 && "next_start"@.len() == 10);
            let fields = shown->Object_0;
            named_field_at(fields, 0);
            named_field_at(fields, 1);
            named_field_at(fields, 2);
            named_field_at(fields, 3);
        },
        Err(_) => {},
    }
}

/// The answer to a request for an address shows the address that was given out.
pub proof fn given_address_is_shown(record: RecordModel, issued: IssuedModel)
    ensures
        ({
            let shown = address_shown(record, issued);
            &&& shown.text_field("name"@) == Some(record.config.name)
            &&& shown.number_field("branch"@) == Some(issued.branch as u64)
            &&& shown.number_field("index"@) == Some(issued.index as u64)
            &&& shown.text_field("address"@) == Some(issued.address)
            &&& shown.text_field("scriptpubkey"@) == Some(issued.scriptpubkey)
            &&& issued.annotation is Some ==> shown.text_field("annotation"@)
                == issued.annotation
            &&& record.next_indexes.contains_key(issued.branch) ==> shown.number_field(
                "next_index"@,
            ) == Some(record.next_indexes[issued.branch] as u64)
            &&& shown.number_field("lookahead"@) == Some(record.config.lookahead as u64)
            &&& shown.number_field("range_end"@) == Some(record.range_end as u64)
        }),
{
    reveal_strlit("name");
    reveal_strlit("branch");
    reveal_strlit("index");
    reveal_strlit("address");
    reveal_strlit("scriptpubkey");
    reveal_strlit("annotation");
    reveal_strlit("next_index");
    reveal_strlit("lookahead");
    reveal_strlit("range_end");
    assert("name"@.len() == 4 && "branch"@.len() == 6 && "index"@.len() == 5);
    assert("address"@.len() == 7 && "scriptpubkey"@.len() == 12);
    assert("annotation"@.len() == 10 && "next_index"@.len() == 10);
    assert("annotation"@[0] == 'a' && "next_index"@[0] == 'n');
    assert("lookahead"@.len() == 9 && "range_end"@.len() == 9);
    assert("lookahead"@[0] == 'l' && "range_end"@[0] == 'r');
    let fields = address_shown(record, issued)->Object_0;
    named_field_at(fields, 0);
    named_field_at(fields, 1);
    named_field_at(fields, 2);
    named_field_at(fields, 3);
    named_field_at(fields, 4);
    named_field_at(fields, 5);
    named_field_at(fields, 6);
    named_field_at(fields, 7);
    named_field_at(fields, 8);
}

/// An address is refused for the first thing that stands against it: its annotation, a
/// running scan, a descriptor that is not known or not ready or has no wildcard, and a
/// branch that it does not have.
pub proof fn refused_address_says_why(
    state: StateModel,
    name: Seq<char>,
    branch: u32,
    annotation: Option<Seq<char>>,
    minimum: Option<u32>,
    now: u64,
)
    ensures
        ({
            let r = allocation(state, name, branch, annotation, minimum, now);
            let fair = annotation is Some ==> annotation_fault(annotation->Some_0) is None;
            let idle = fair && !state.active_scans.contains_key(name);
            let record = state.inner.records[name];
            let ready = idle && state.inner.records.contains_key(name) && record.status
                == DescriptorStatus::Active && record.initial_scan_complete;
            let set = config_set(record.config, state.network)->Ok_0;
            let sound = ready && config_set(record.config, state.network) is Ok;
            &&& annotation is Some && annotation->Some_0.len() == 0 ==> refuses(
                r,
                TrackerError::AnnotationEmpty,
                name,
            )
            &&& annotation is Some && annotation->Some_0.len() > 0 && !fair ==> refuses(
                r,
                TrackerError::AnnotationTooLong,
                name,
            )
            &&& fair && !idle ==> refuses(r, TrackerError::ScanActive, name)
            &&& idle && !state.inner.records.contains_key(name) ==> refuses(
                r,
                TrackerError::NotRegistered,
                name,
            )
            &&& idle && state.inner.records.contains_key(name) && !ready ==> refuses(
                r,
                TrackerError::NotReady,
                name,
            )
            &&& sound && !set.ranged ==> refuses(r, TrackerError::StaticIssue, name)
            &&& sound && set.ranged && branch >= set.branches ==> refuses(
                r,
                TrackerError::NoSuchBranch { branch },
                name,
            )
        }),
{
}

} // verus!
