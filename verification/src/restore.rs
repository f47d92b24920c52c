//! How stored descriptors and addresses are taken up again.

use crate::descriptor::{
    address_at, address_result, hex_text, place_result, script_at, DescriptorSet, SetModel,
};
use crate::error::{refusal_for, refusal_of, refusal_within, Refusal, RefusalModel, TrackerError};
use crate::frontier::{
    desired_ends, desired_range_ends, end_set, refresh_aggregate_indexes, refreshed, same_indexes,
    set_end, uniform_ends, uniform_range_ends,
};
use crate::model::{
    DescriptorRecord, IssuedAddress, IssuedModel, RecordModel, TrackedUtxo, UtxoModel,
};
use crate::ordered::{
    models, push_contains, sorted_keys, sorted_keys_of, sorted_values, Duplicate, TextMap,
};
use crate::scripts::{
    config_set, descriptor_scripts, ensure_no_script_overlap, overlap_refusal, validate_config,
    watched_scripts,
};
use crate::state::{
    address_put, in_place_order, same_place, AddressBook, AppState, StateModel, TrackerModel,
};
use crate::text::same_text;
use std::collections::BTreeMap;
use vstd::prelude::*;

verus! {

/// The greatest index of each branch over a row of outputs.
pub open spec fn used_indexes(outputs: Seq<UtxoModel>) -> Map<u32, u32>
    decreases outputs.len(),
{
    if outputs.len() == 0 {
        Map::empty()
    } else {
        end_set(
            used_indexes(outputs.drop_last()),
            outputs.last().branch,
            outputs.last().derivation_index,
            true,
        )
    }
}

/// The greatest index of each branch over the outputs of a record.
pub(crate) fn collect_used_indexes(outputs: &TextMap<TrackedUtxo>) -> (r: BTreeMap<u32, u32>)
    ensures
        r@ == used_indexes(sorted_values(outputs@)),
{
    let ghost keys = sorted_keys(outputs@.dom());
    let ghost all = sorted_values(outputs@);
    let n = outputs.len();
    let mut r: BTreeMap<u32, u32> = BTreeMap::new();
    let mut i: usize = 0;
    while i < n
        invariant
            i <= n,
            n == keys.len(),
            n == outputs@.dom().len(),
            keys == sorted_keys(outputs@.dom()),
            all == sorted_values(outputs@),
            r@ == used_indexes(all.take(i as int)),
        decreases n - i,
    {
        let (_, output) = outputs.at(i);
        assert(all[i as int] == output@);
        assert(all.take(i + 1).drop_last() =~= all.take(i as int));
        set_end(&mut r, output.branch, output.derivation_index, true);
        i = i + 1;
    }
    assert(all.take(i as int) =~= all);
    r
}

/// No branch has an index.
pub open spec fn has_none(m: Map<u32, u32>) -> bool {
    m == Map::<u32, u32>::empty()
}

/// Whether no branch has an index.
fn is_without(m: &BTreeMap<u32, u32>) -> (r: bool)
    ensures
        r == has_none(m@),
{
    let none: BTreeMap<u32, u32> = BTreeMap::new();
    same_indexes(m, &none)
}

/// A record that was stored with one end for all branches has an end for each.
pub open spec fn with_branch_ends(record: RecordModel, branches: nat) -> RecordModel {
    if has_none(record.range_ends) {
        RecordModel {
            range_ends: uniform_ends(
                branches as u32,
                if record.range_end == 0 {
                    record.config.lookahead
                } else {
                    record.range_end
                },
            ),
            ..record
        }
    } else {
        record
    }
}

/// A record that was stored without the last used index of each branch has
/// them from its outputs, or else the one that it was stored with on its first
/// branch.
pub open spec fn with_used_indexes(record: RecordModel) -> RecordModel {
    if has_none(record.last_used_indexes) {
        let used = used_indexes(sorted_values(record.utxos));
        RecordModel {
            last_used_indexes: if has_none(used) && record.last_used_index is Some {
                used.insert(0, record.last_used_index->Some_0)
            } else {
                used
            },
            ..record
        }
    } else {
        record
    }
}

/// Why a stored address is refused, where it is: it must be the address of its
/// place.
pub open spec fn stored_address_fault(
    set: SetModel,
    name: Seq<char>,
    address: IssuedModel,
    network: Seq<char>,
) -> Option<RefusalModel> {
    if address.branch >= set.branches {
        Some(refusal_of(TrackerError::AddressBranch { branch: address.branch }, name))
    } else {
        match place_result(set, address.branch, address.index) {
            Err(e) => Some(refusal_for(e, network)),
            Ok(script) => if script.scriptpubkey != address.scriptpubkey {
                Some(refusal_of(TrackerError::AddressMismatch, name))
            } else {
                match address_result(set, address.branch, address.index, network) {
                    Err(e) => Some(refusal_for(e, network)),
                    Ok(text) => if text != address.address {
                        Some(refusal_of(TrackerError::AddressMismatch, name))
                    } else if address.index == u32::MAX {
                        Some(refusal_of(TrackerError::CursorOverflow, name))
                    } else {
                        None
                    },
                }
            },
        }
    }
}

/// Refuses a stored address that is not the address of its place.
fn check_stored_address(
    descriptor: &DescriptorSet,
    name: &str,
    address: &IssuedAddress,
    network: &str,
) -> (r: Result<(), Refusal>)
    ensures
        match r {
            Ok(_) => stored_address_fault(descriptor@, name@, address@, network@) is None,
            Err(e) => stored_address_fault(descriptor@, name@, address@, network@) == Some(e@),
        },
{
    if address.branch as u64 >= descriptor.branch_count() as u64 {
        return Err(
            Refusal::of(TrackerError::AddressBranch { branch: address.branch }, name),
        );
    }
    match descriptor.derive_one(address.branch, address.index) {
        Err(e) => {
            return Err(e.about(network));
        },
        Ok(script) => {
            if !same_text(script.scriptpubkey.as_str(), address.scriptpubkey.as_str()) {
                return Err(Refusal::of(TrackerError::AddressMismatch, name));
            }
        },
    }
    match descriptor.derive_address(address.branch, address.index, network) {
        Err(e) => {
            return Err(e.about(network));
        },
        Ok(text) => {
            if !same_text(text.as_str(), address.address.as_str()) {
                return Err(Refusal::of(TrackerError::AddressMismatch, name));
            }
        },
    }
    if address.index == u32::MAX {
        return Err(Refusal::of(TrackerError::CursorOverflow, name));
    }
    Ok(())
}

/// The cursors of branches, moved beyond the first `count` stored addresses.
pub open spec fn moved_cursors(
    cursors: Map<u32, u32>,
    set: SetModel,
    name: Seq<char>,
    addresses: Seq<IssuedModel>,
    count: nat,
    network: Seq<char>,
) -> Result<Map<u32, u32>, RefusalModel>
    decreases count,
{
    if count == 0 {
        Ok(cursors)
    } else {
        let address = addresses[count - 1];
        match moved_cursors(cursors, set, name, addresses, (count - 1) as nat, network) {
            Err(refusal) => Err(refusal),
            Ok(moved) => match stored_address_fault(set, name, address, network) {
                Some(refusal) => Err(refusal),
                None => Ok(end_set(moved, address.branch, (address.index + 1) as u32, true)),
            },
        }
    }
}

/// What was refused for the first addresses is refused for more of them.
proof fn refused_address_stays(
    cursors: Map<u32, u32>,
    set: SetModel,
    name: Seq<char>,
    addresses: Seq<IssuedModel>,
    count: nat,
    more: nat,
    network: Seq<char>,
)
    requires
        count <= more,
        moved_cursors(cursors, set, name, addresses, count, network) is Err,
    ensures
        moved_cursors(cursors, set, name, addresses, more, network) == moved_cursors(
            cursors,
            set,
            name,
            addresses,
            count,
            network,
        ),
    decreases more,
{
    if count < more {
        refused_address_stays(
            cursors,
            set,
            name,
            addresses,
            count,
            (more - 1) as nat,
            network,
        );
    }
}

/// Moves the cursors of branches beyond stored addresses.
fn move_cursors(
    cursors: &BTreeMap<u32, u32>,
    descriptor: &DescriptorSet,
    name: &str,
    addresses: &Vec<IssuedAddress>,
    network: &str,
) -> (r: Result<BTreeMap<u32, u32>, Refusal>)
    ensures
        (match r {
            Ok(moved) => Ok(moved@),
            Err(e) => Err(e@),
        }) == moved_cursors(
            cursors@,
            descriptor@,
            name@,
            models(addresses@),
            addresses@.len(),
            network@,
        ),
{
    let ghost all = models(addresses@);
    let mut moved = cursors.clone();
    let mut i: usize = 0;
    while i < addresses.len()
        invariant
            i <= addresses.len(),
            all == models(addresses@),
            Ok::<Map<u32, u32>, RefusalModel>(moved@) == moved_cursors(
                cursors@,
                descriptor@,
                name@,
                all,
                i as nat,
                network@,
            ),
        decreases addresses.len() - i,
    {
        let address = &addresses[i];
        assert(all[i as int] == address@);
        match check_stored_address(descriptor, name, address, network) {
            Err(e) => {
                proof {
                    refused_address_stays(
                        cursors@,
                        descriptor@,
                        name@,
                        all,
                        (i + 1) as nat,
                        addresses@.len(),
                        network@,
                    );
                }
                return Err(e);
            },
            Ok(_) => {
                set_end(&mut moved, address.branch, address.index + 1, true);
            },
        }
        i = i + 1;
    }
    Ok(moved)
}

/// A stored record as it is taken up again: with an end, a last used index and
/// a cursor for each branch, and watched as far as its lookahead asks.
pub open spec fn taken_up(
    record: RecordModel,
    set: SetModel,
    addresses: Seq<IssuedModel>,
    network: Seq<char>,
) -> Result<RecordModel, RefusalModel> {
    let prepared = with_used_indexes(with_branch_ends(record, set.branches));
    match moved_cursors(
        prepared.next_indexes,
        set,
        record.config.name,
        addresses,
        addresses.len(),
        network,
    ) {
        Err(refusal) => Err(refusal),
        Ok(cursors) => {
            let moved = RecordModel { next_indexes: cursors, ..prepared };
            match desired_ends(moved, set.branches, record.config.lookahead, true) {
                Err(e) => Err(refusal_of(e, network)),
                Ok(ends) => Ok(refreshed(RecordModel { range_ends: ends, ..moved })),
            }
        },
    }
}

/// A stored record as it is taken up again beside those that were before it.
pub open spec fn restoration(
    record: RecordModel,
    addresses: Seq<IssuedModel>,
    restored: Map<Seq<char>, RecordModel>,
    network: Seq<char>,
) -> Result<RecordModel, RefusalModel> {
    match config_set(record.config, network) {
        Err(e) => Err(
            refusal_within(
                TrackerError::StoredInvalid,
                record.config.name,
                refusal_for(e, network),
            ),
        ),
        Ok(set) => match taken_up(record, set, addresses, network) {
            Err(refusal) => Err(refusal),
            Ok(taken) => match watched_scripts(taken, set) {
                Err(e) => Err(refusal_for(e, network)),
                Ok(scripts) => match overlap_refusal(
                    record.config.name,
                    scripts,
                    restored,
                    network,
                ) {
                    Some(refusal) => Err(refusal),
                    None => if restored.contains_key(record.config.name) {
                        Err(refusal_of(TrackerError::DuplicateStored, record.config.name))
                    } else {
                        Ok(taken)
                    },
                },
            },
        },
    }
}

/// A record that is taken up again, and whether it is to be stored anew.
#[derive(Debug)]
pub struct Restored {
    pub record: DescriptorRecord,
    pub changed: bool,
}

/// Something of a record has changed.
pub open spec fn is_changed(before: RecordModel, after: RecordModel) -> bool {
    after != before
}

/// Takes a stored record up again beside those that were before it.
pub fn restore_record(
    record: DescriptorRecord,
    addresses: &Vec<IssuedAddress>,
    restored: &TextMap<DescriptorRecord>,
    network: &str,
) -> (r: Result<Restored, Refusal>)
    ensures
        match (r, restoration(record@, models(addresses@), restored@, network@)) {
            (Ok(taken), Ok(expected)) => taken.record@ == expected && taken.changed == is_changed(
                record@,
                expected,
            ),
            (Err(e), Err(refusal)) => e@ == refusal,
            _ => false,
        },
{
    let ghost before = record@;
    let descriptor = match validate_config(&record.config, network) {
        Err(e) => {
            return Err(
                e.about(network).within(
                    TrackerError::StoredInvalid,
                    record.config.name.as_str(),
                ),
            );
        },
        Ok(descriptor) => descriptor,
    };
    let count = descriptor.branch_count();
    let range_ends = record.range_ends.clone();
    let last_used_indexes = record.last_used_indexes.clone();
    let next_indexes = record.next_indexes.clone();
    let range_end = record.range_end;
    let last_used_index = record.last_used_index;
    let mut record = record;
    if is_without(&record.range_ends) {
        let end: u32 = if record.range_end == 0 {
            record.config.lookahead
        } else {
            record.range_end
        };
        record.range_ends = uniform_range_ends(count as u32, end);
    }
    assert(record@ == with_branch_ends(before, count as nat));
    if is_without(&record.last_used_indexes) {
        let mut used = collect_used_indexes(&record.utxos);
        if is_without(&used) {
            match record.last_used_index {
                Some(index) => {
                    set_end(&mut used, 0, index, false);
                },
                None => {},
            }
        }
        record.last_used_indexes = used;
    }
    assert(record@ == with_used_indexes(with_branch_ends(before, count as nat)));
    match move_cursors(
        &record.next_indexes,
        &descriptor,
        record.config.name.as_str(),
        addresses,
        network,
    ) {
        Err(e) => {
            return Err(e);
        },
        Ok(cursors) => {
            record.next_indexes = cursors;
        },
    }
    match desired_range_ends(&record, count as u32, record.config.lookahead, true) {
        Err(e) => {
            return Err(Refusal::of(e, network));
        },
        Ok(ends) => {
            record.range_ends = ends;
        },
    }
    refresh_aggregate_indexes(&mut record);
    let scripts = match descriptor_scripts(&record, &descriptor) {
        Err(e) => {
            return Err(e.about(network));
        },
        Ok(scripts) => scripts,
    };
    match ensure_no_script_overlap(record.config.name.as_str(), &scripts, restored, network) {
        Err(e) => {
            return Err(e);
        },
        Ok(_) => {},
    }
    if restored.contains(record.config.name.as_str()) {
        return Err(Refusal::of(TrackerError::DuplicateStored, record.config.name.as_str()));
    }
    let changed = !(same_indexes(&range_ends, &record.range_ends) && same_indexes(
        &last_used_indexes,
        &record.last_used_indexes,
    ) && same_indexes(&next_indexes, &record.next_indexes) && range_end == record.range_end
        && same_index(last_used_index, record.last_used_index));
    proof {
        if !changed {
            assert(record@ =~= before);
        }
    }
    Ok(Restored { record, changed })
}

/// Whether two optional indexes are the same.
fn same_index(a: Option<u32>, b: Option<u32>) -> (r: bool)
    ensures
        r == (a == b),
{
    match (a, b) {
        (Some(x), Some(y)) => x == y,
        (None, None) => true,
        _ => false,
    }
}

/// `address` stands in a row, and none of the same descriptor and place after
/// it.
pub open spec fn stands_last(addresses: Seq<IssuedModel>, address: IssuedModel) -> bool {
    exists|i: int|
        0 <= i < addresses.len() && #[trigger] addresses[i] == address && forall|j: int|
            i < j < addresses.len() ==> !(#[trigger] addresses[j].name == address.name
                && same_place(addresses[j], address))
}

/// `books` holds the addresses of a row by descriptor and place. Of two with
/// the same place the later one counts.
pub open spec fn are_grouped(
    addresses: Seq<IssuedModel>,
    books: Map<Seq<char>, Seq<IssuedModel>>,
) -> bool {
    &&& forall|name: Seq<char>| #[trigger]
        books.contains_key(name) <==> exists|i: int|
            0 <= i < addresses.len() && #[trigger] addresses[i].name == name
    &&& forall|name: Seq<char>| #[trigger]
        books.contains_key(name) ==> in_place_order(books[name])
    &&& forall|name: Seq<char>, address: IssuedModel|
        books.contains_key(name) ==> (#[trigger] books[name].contains(address) <==> address.name
            == name && stands_last(addresses, address))
}

/// Which addresses stand last when one more follows.
proof fn stands_last_after(
    addresses: Seq<IssuedModel>,
    last: IssuedModel,
    address: IssuedModel,
)
    ensures
        stands_last(addresses.push(last), address) <==> address == last || (stands_last(
            addresses,
            address,
        ) && !(last.name == address.name && same_place(last, address))),
{
    let more = addresses.push(last);
    if address == last {
        assert(more[addresses.len() as int] == address);
    }
    if stands_last(addresses, address) && !(last.name == address.name && same_place(
        last,
        address,
    )) {
        let i = choose|i: int|
            0 <= i < addresses.len() && #[trigger] addresses[i] == address && forall|j: int|
                i < j < addresses.len() ==> !(#[trigger] addresses[j].name == address.name
                    && same_place(addresses[j], address));
        assert(more[i] == address);
        assert forall|j: int| i < j < more.len() implies !(#[trigger] more[j].name == address.name
            && same_place(more[j], address)) by {
            if j < addresses.len() {
                assert(addresses[j] == more[j]);
            }
        }
    }
    if stands_last(more, address) && address != last {
        let i = choose|i: int|
            0 <= i < more.len() && #[trigger] more[i] == address && forall|j: int|
                i < j < more.len() ==> !(#[trigger] more[j].name == address.name && same_place(
                    more[j],
                    address,
                ));
        assert(i < addresses.len());
        assert(addresses[i] == address);
        assert(more[addresses.len() as int] == last);
        assert forall|j: int| i < j < addresses.len() implies !(#[trigger] addresses[j].name
            == address.name && same_place(addresses[j], address)) by {
            assert(more[j] == addresses[j]);
        }
    }
}

/// Putting one more address keeps the addresses grouped.
proof fn grouped_after(
    addresses: Seq<IssuedModel>,
    books: Map<Seq<char>, Seq<IssuedModel>>,
    last: IssuedModel,
    book: Seq<IssuedModel>,
)
    requires
        are_grouped(addresses, books),
        address_put(
            if books.contains_key(last.name) {
                books[last.name]
            } else {
                Seq::empty()
            },
            book,
            last,
        ),
    ensures
        are_grouped(addresses.push(last), books.insert(last.name, book)),
{
    let more = addresses.push(last);
    let after = books.insert(last.name, book);
    assert forall|name: Seq<char>| #[trigger]
        after.contains_key(name) <==> exists|i: int|
            0 <= i < more.len() && #[trigger] more[i].name == name by {
        if exists|i: int| 0 <= i < addresses.len() && #[trigger] addresses[i].name == name {
            let i = choose|i: int| 0 <= i < addresses.len() && #[trigger] addresses[i].name == name;
            assert(more[i].name == name);
        }
        if exists|i: int| 0 <= i < more.len() && #[trigger] more[i].name == name {
            let i = choose|i: int| 0 <= i < more.len() && #[trigger] more[i].name == name;
            if i < addresses.len() {
                assert(addresses[i].name == name);
            }
        }
        assert(more[addresses.len() as int].name == last.name);
        assert(books.contains_key(name) || name == last.name <==> after.contains_key(name));
    }
    assert forall|name: Seq<char>, address: IssuedModel| after.contains_key(name) implies (
    #[trigger] after[name].contains(address) <==> address.name == name && stands_last(
        more,
        address,
    )) by {
        stands_last_after(addresses, last, address);
        if name == last.name {
            if books.contains_key(name) {
                assert(books[name].contains(address) <==> address.name == name && stands_last(
                    addresses,
                    address,
                ));
            } else {
                if address.name == name && stands_last(addresses, address) {
                    let i = choose|i: int|
                        0 <= i < addresses.len() && #[trigger] addresses[i] == address;
                    assert(addresses[i].name == name);
                }
            }
        } else {
            assert(books.contains_key(name));
            assert(books[name].contains(address) <==> address.name == name && stands_last(
                addresses,
                address,
            ));
        }
    }
}

/// Groups stored addresses by descriptor.
pub fn group_addresses(addresses: &Vec<IssuedAddress>) -> (r: TextMap<AddressBook>)
    ensures
        are_grouped(models(addresses@), r@),
{
    let ghost all = models(addresses@);
    let mut books: TextMap<AddressBook> = TextMap::new();
    let mut i: usize = 0;
    while i < addresses.len()
        invariant
            i <= addresses.len(),
            all == models(addresses@),
            are_grouped(all.take(i as int), books@),
        decreases addresses.len() - i,
    {
        let ghost before = books@;
        let address = addresses[i].duplicate();
        let name = address.name.clone();
        let ghost new = address@;
        assert(all[i as int] == new);
        let mut book = match books.remove(name.as_str()) {
            Some(book) => book,
            None => AddressBook::new(),
        };
        book.put(address);
        books.insert(name, book);
        proof {
            assert(books@ =~= before.insert(new.name, book@));
            assert(all.take(i + 1) =~= all.take(i as int).push(new));
            grouped_after(all.take(i as int), before, new, book@);
        }
        i = i + 1;
    }
    assert(all.take(i as int) =~= all);
    books
}

/// The keys of a row that name no descriptor.
pub open spec fn unknown_names(
    keys: Seq<Seq<char>>,
    records: Map<Seq<char>, RecordModel>,
) -> Seq<Seq<char>>
    decreases keys.len(),
{
    if keys.len() == 0 {
        Seq::empty()
    } else {
        let rest = unknown_names(keys.drop_last(), records);
        if records.contains_key(keys.last()) {
            rest
        } else {
            rest.push(keys.last())
        }
    }
}

/// The names under which addresses are kept for no descriptor, in order.
pub fn orphaned_names(books: &TextMap<AddressBook>, records: &TextMap<DescriptorRecord>) -> (r: Vec<
    String,
>)
    ensures
        models(r@) == unknown_names(sorted_keys(books@.dom()), records@),
{
    let ghost keys = sorted_keys(books@.dom());
    let n = books.len();
    let mut names: Vec<String> = Vec::new();
    let mut i: usize = 0;
    assert(models(names@) =~= Seq::<Seq<char>>::empty());
    while i < n
        invariant
            i <= n,
            n == keys.len(),
            n == books@.dom().len(),
            keys == sorted_keys(books@.dom()),
            models(names@) == unknown_names(keys.take(i as int), records@),
        decreases n - i,
    {
        let (key, _) = books.at(i);
        assert(keys.take(i + 1).drop_last() =~= keys.take(i as int));
        if !records.contains(key.as_str()) {
            let ghost before = models(names@);
            names.push(key.clone());
            assert(models(names@) =~= before.push(key@));
        }
        i = i + 1;
    }
    assert(keys.take(i as int) =~= keys);
    names
}

/// The books of addresses of descriptors that are known.
pub fn keep_known(books: &TextMap<AddressBook>, records: &TextMap<DescriptorRecord>) -> (r: TextMap<
    AddressBook,
>)
    ensures
        r@ == books@.restrict(records@.dom()),
{
    let ghost keys = sorted_keys(books@.dom());
    let n = books.len();
    let mut kept: TextMap<AddressBook> = TextMap::new();
    let mut i: usize = 0;
    while i < n
        invariant
            i <= n,
            n == keys.len(),
            n == books@.dom().len(),
            keys == sorted_keys(books@.dom()),
            books@.dom().finite(),
            forall|name: Seq<char>| #[trigger]
                kept@.contains_key(name) <==> keys.take(i as int).contains(name)
                    && records@.contains_key(name),
            forall|name: Seq<char>| #[trigger]
                kept@.contains_key(name) ==> kept@[name] == books@[name],
        decreases n - i,
    {
        let (key, book) = books.at(i);
        let ghost before = kept@;
        assert(keys.take(i + 1) =~= keys.take(i as int).push(keys[i as int]));
        if records.contains(key.as_str()) {
            kept.insert(key.clone(), book.duplicate());
        }
        assert forall|name: Seq<char>| #[trigger]
            kept@.contains_key(name) <==> keys.take(i + 1).contains(name)
                && records@.contains_key(name) by {
            push_contains(keys.take(i as int), keys[i as int], name);
            assert(before.contains_key(name) <==> keys.take(i as int).contains(name)
                && records@.contains_key(name));
        }
        i = i + 1;
    }
    assert(keys.take(i as int) =~= keys);
    assert forall|name: Seq<char>| keys.contains(name) == books@.contains_key(name) by {
        sorted_keys_of(books@.dom());
        assert(keys.to_set().contains(name) == books@.dom().contains(name));
    }
    assert(kept@ =~= books@.restrict(records@.dom()));
    kept
}

/// The records that were taken up with one more, under its own name.
pub open spec fn record_added(
    restored: Map<Seq<char>, RecordModel>,
    record: RecordModel,
) -> Map<Seq<char>, RecordModel> {
    restored.insert(record.config.name, record)
}

/// Adds a record that was taken up to those before it.
pub fn add_restored(restored: &mut TextMap<DescriptorRecord>, record: DescriptorRecord)
    ensures
        final(restored)@ == record_added(old(restored)@, record@),
{
    let name = record.config.name.clone();
    restored.insert(name, record);
}

/// A state with the records that were taken up and the addresses that were
/// given out for them.
pub open spec fn loaded(
    state: StateModel,
    records: Map<Seq<char>, RecordModel>,
    books: Map<Seq<char>, Seq<IssuedModel>>,
) -> StateModel {
    StateModel {
        inner: TrackerModel {
            records,
            issued_addresses: books.restrict(records.dom()),
            ..state.inner
        },
        ..state
    }
}

/// Ends the loading of what was stored.
pub fn finish_load(
    state: &mut AppState,
    records: TextMap<DescriptorRecord>,
    books: &TextMap<AddressBook>,
)
    ensures
        final(state)@ == loaded(old(state)@, records@, books@),
{
    let known = keep_known(books, &records);
    state.inner.records = records;
    state.inner.issued_addresses = known;
}

/// The last used index of a branch is the greatest index of its outputs, and a
/// branch without outputs has none.
pub proof fn used_indexes_are_the_greatest(outputs: Seq<UtxoModel>, branch: u32)
    ensures
        ({
            let used = used_indexes(outputs);
            &&& forall|i: int|
                0 <= i < outputs.len() && (#[trigger] outputs[i]).branch == branch
                    ==> used.contains_key(branch) && used[branch] >= outputs[i].derivation_index
            &&& used.contains_key(branch) ==> exists|i: int|
                0 <= i < outputs.len() && (#[trigger] outputs[i]).branch == branch
                    && outputs[i].derivation_index == used[branch]
        }),
    decreases outputs.len(),
{
    if outputs.len() > 0 {
        let rest = outputs.drop_last();
        let last = outputs.last();
        used_indexes_are_the_greatest(rest, branch);
        let before = used_indexes(rest);
        let used = used_indexes(outputs);
        assert forall|i: int| 0 <= i < outputs.len() && (#[trigger] outputs[i]).branch
            == branch implies used.contains_key(branch) && used[branch]
            >= outputs[i].derivation_index by {
            if i < rest.len() {
                assert(rest[i] == outputs[i]);
                assert(rest[i].branch == branch);
            }
        }
        if used.contains_key(branch) {
            if last.branch == branch && used[branch] == last.derivation_index {
                assert(outputs[outputs.len() - 1].branch == branch);
            } else {
                assert(before.contains_key(branch) && before[branch] == used[branch]);
                let i = choose|i: int|
                    0 <= i < rest.len() && (#[trigger] rest[i]).branch == branch
                        && rest[i].derivation_index == before[branch];
                assert(outputs[i].branch == branch);
            }
        }
    }
}

/// A stored address is accepted exactly where its script and its address are the
/// ones that the descriptor derives for its own place.
pub proof fn stored_address_is_of_its_place(
    set: SetModel,
    name: Seq<char>,
    address: IssuedModel,
    network: Seq<char>,
)
    ensures
        stored_address_fault(set, name, address, network) is None <==> {
            &&& address.branch < set.branches
            &&& set.ranged || address.index == 0
            &&& address.index < u32::MAX
            &&& script_at(set.text, address.branch, address.index) matches Ok(bytes) && hex_text(
                bytes,
            ) == address.scriptpubkey
            &&& address_at(set.text, address.branch, address.index, network) == Ok::<
                Seq<char>,
                Seq<char>,
            >(address.address)
        },
{
}

/// A stored record that is taken up keeps what it has found, what waits and what
/// it was asked for; nothing goes back, and a record that has its ends and last
/// uses keeps them.
pub proof fn taken_up_record_keeps_findings(
    record: RecordModel,
    set: SetModel,
    addresses: Seq<IssuedModel>,
    network: Seq<char>,
)
    requires
        taken_up(record, set, addresses, network) is Ok,
    ensures
        ({
            let after = taken_up(record, set, addresses, network)->Ok_0;
            &&& after.config == record.config
            &&& after.utxos == record.utxos
            &&& after.pending_movements == record.pending_movements
            &&& after.external_outpoints == record.external_outpoints
            &&& after.status == record.status
            &&& after.initial_scan_complete == record.initial_scan_complete
            &&& after.pending_rescan == record.pending_rescan
            &&& after.scan_operation_id == record.scan_operation_id
            &&& after.incident == record.incident
            &&& after.last_success_at == record.last_success_at
            &&& after.generation == record.generation
            &&& record.last_used_indexes != Map::<u32, u32>::empty() ==> after.last_used_indexes
                == record.last_used_indexes
        }),
{
}

/// A record that was stored with one end for all branches is taken up with that
/// end on each of them, or with its lookahead where it had none.
pub proof fn one_end_serves_all_branches(record: RecordModel, branches: nat, branch: u32)
    requires
        record.range_ends == Map::<u32, u32>::empty(),
        branches <= u32::MAX,
        branch < branches,
    ensures
        with_branch_ends(record, branches).range_ends.contains_key(branch),
        record.range_end > 0 ==> with_branch_ends(record, branches).range_ends[branch]
            == record.range_end,
        record.range_end == 0 ==> with_branch_ends(record, branches).range_ends[branch]
            == record.config.lookahead,
{
}

/// A record that was stored without the last used index of each branch is taken
/// up with those of its outputs, or where it has none with its one last used index
/// on the first branch.
pub proof fn last_uses_come_from_the_outputs(record: RecordModel, key: Seq<char>)
    requires
        record.last_used_indexes == Map::<u32, u32>::empty(),
        record.utxos.dom().finite(),
    ensures
        ({
            let after = with_used_indexes(record).last_used_indexes;
            &&& record.utxos.contains_key(key) ==> after.contains_key(record.utxos[key].branch)
                && after[record.utxos[key].branch] >= record.utxos[key].derivation_index
            &&& record.utxos.dom().is_empty() && record.last_used_index is Some
                ==> after.contains_key(0) && after[0] == record.last_used_index->Some_0
            &&& record.utxos.dom().is_empty() && record.last_used_index is None ==> after == Map::<
                u32,
                u32,
            >::empty()
        }),
{
    let keys = sorted_keys(record.utxos.dom());
    let outputs = sorted_values(record.utxos);
    sorted_keys_of(record.utxos.dom());
    if record.utxos.contains_key(key) {
        assert(keys.to_set().contains(key));
        let i = choose|i: int| 0 <= i < keys.len() && keys[i] == key;
        assert(outputs[i] == record.utxos[key]);
        used_indexes_are_the_greatest(outputs, record.utxos[key].branch);
        assert(used_indexes(outputs).contains_key(record.utxos[key].branch));
        assert(!has_none(used_indexes(outputs)));
    }
    if record.utxos.dom().is_empty() {
        if keys.len() > 0 {
            assert(keys.to_set().contains(keys[0]));
            assert(record.utxos.dom().contains(keys[0]));
        }
        assert(outputs.len() == 0);
    }
}

/// A stored record is taken up only once and only where no record before it
/// watches one of its scripts.
pub proof fn restored_record_is_apart(
    record: RecordModel,
    addresses: Seq<IssuedModel>,
    restored: Map<Seq<char>, RecordModel>,
    network: Seq<char>,
)
    requires
        restoration(record, addresses, restored, network) is Ok,
    ensures
        ({
            let set = config_set(record.config, network)->Ok_0;
            let after = restoration(record, addresses, restored, network)->Ok_0;
            &&& config_set(record.config, network) is Ok
            &&& !restored.contains_key(record.config.name)
            &&& taken_up(record, set, addresses, network) == Ok::<RecordModel, RefusalModel>(after)
            &&& watched_scripts(after, set) is Ok
            &&& overlap_refusal(
                record.config.name,
                watched_scripts(after, set)->Ok_0,
                restored,
                network,
            ) is None
        }),
{
}

/// Addresses that are grouped are each under the name of their own descriptor, by
/// branch and index; of two of the same place the one that was read later counts,
/// and none is made up.
pub proof fn grouped_addresses_are_kept(
    addresses: Seq<IssuedModel>,
    books: Map<Seq<char>, Seq<IssuedModel>>,
    i: int,
    name: Seq<char>,
    k: int,
)
    requires
        are_grouped(addresses, books),
    ensures
        0 <= i < addresses.len() && (forall|j: int|
            i < j < addresses.len() ==> (#[trigger] addresses[j]).name != addresses[i].name
                || addresses[j].branch != addresses[i].branch || addresses[j].index
                != addresses[i].index) ==> books.contains_key(addresses[i].name)
            && books[addresses[i].name].contains(addresses[i]),
        books.contains_key(name) && 0 <= k < books[name].len() ==> books[name][k].name == name
            && addresses.contains(books[name][k]),
        books.contains_key(name) && 0 <= k < books[name].len() - 1 ==> books[name][k].branch
            < books[name][k + 1].branch || (books[name][k].branch == books[name][k + 1].branch
            && books[name][k].index < books[name][k + 1].index),
{
    if 0 <= i < addresses.len() && (forall|j: int|
        i < j < addresses.len() ==> (#[trigger] addresses[j]).name != addresses[i].name
            || addresses[j].branch != addresses[i].branch || addresses[j].index
            != addresses[i].index) {
        let address = addresses[i];
        assert(addresses[i].name == address.name);
        assert(books.contains_key(address.name));
        assert(stands_last(addresses, address)) by {
            assert forall|j: int| i < j < addresses.len() implies !(#[trigger] addresses[j].name
                == address.name && same_place(addresses[j], address)) by {}
        }
        assert(books[address.name].contains(address));
    }
    if books.contains_key(name) && 0 <= k < books[name].len() {
        assert(books[name].contains(books[name][k]));
        assert(stands_last(addresses, books[name][k]));
        let n = choose|n: int|
            0 <= n < addresses.len() && #[trigger] addresses[n] == books[name][k];
        assert(addresses.contains(addresses[n]));
        if k < books[name].len() - 1 {
            assert(crate::state::place_before(books[name][k], books[name][k + 1]));
        }
    }
}

/// The names whose addresses are removed are exactly those that have addresses
/// and are no descriptor.
pub proof fn orphans_are_unknown(
    keys: Seq<Seq<char>>,
    records: Map<Seq<char>, RecordModel>,
    name: Seq<char>,
)
    ensures
        unknown_names(keys, records).contains(name) <==> keys.contains(name)
            && !records.contains_key(name),
    decreases keys.len(),
{
    if keys.len() > 0 {
        let rest = keys.drop_last();
        orphans_are_unknown(rest, records, name);
        push_contains(rest, keys.last(), name);
        push_contains(unknown_names(rest, records), keys.last(), name);
        assert(keys =~= rest.push(keys.last()));
    }
}

/// What was loaded is there: each record that was taken up under its own name, and
/// the addresses of each of them, and none of another name.
pub proof fn loaded_state_has_what_was_stored(
    state: StateModel,
    records: Map<Seq<char>, RecordModel>,
    books: Map<Seq<char>, Seq<IssuedModel>>,
    record: RecordModel,
    name: Seq<char>,
)
    ensures
        ({
            let after = loaded(state, records, books);
            &&& after.inner.records == records
            &&& after.inner.issued_addresses.contains_key(name) <==> books.contains_key(name)
                && records.contains_key(name)
            &&& after.inner.issued_addresses.contains_key(name)
                ==> after.inner.issued_addresses[name] == books[name]
            &&& after.active_scans == state.active_scans
            &&& after.network == state.network
            &&& after.rpc_path == state.rpc_path
        }),
        record_added(records, record).contains_key(record.config.name),
        record_added(records, record)[record.config.name] == record,
        name != record.config.name ==> record_added(records, record).contains_key(name)
            == records.contains_key(name) && record_added(records, record)[name] == records[name],
{
}

/// A record that is taken up is stored again exactly where something of it changed.
pub proof fn changed_record_is_stored_again(before: RecordModel, after: RecordModel)
    ensures
        !is_changed(before, before),
        before.range_ends != after.range_ends || before.last_used_indexes
            != after.last_used_indexes || before.next_indexes != after.next_indexes
            || before.range_end != after.range_end || before.last_used_index
            != after.last_used_index ==> is_changed(before, after),
        !is_changed(before, after) ==> before == after,
{
}

} // verus!
