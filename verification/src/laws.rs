//! What holds of the library as a whole.

use crate::addresses::{advanced, extension};
use crate::cln::{
    address_key, delete_params, entry_watches, listed_watches, prefix_rescan_call, record_key,
    removal_of, reply_watches, store_params, WatchModel,
};
use crate::delivery::{due_movements, mature_ids, movement_delivered, movements_keyed};
use crate::descriptor::{
    accepted_descriptor_is_sound, checked_set, checksum_body, has_script, hex_text, is_script_of,
    script_at, ScriptModel, SetModel,
};
use crate::error::{RefusalModel, TrackerError};
use crate::events::{
    deposit_id, deposit_recorded, deposit_step, frontier_moved, grown_branches, output_kept,
    output_spent, spend_id, spend_step, MatchStep, ObservedModel,
};
use crate::frontier::{
    desired_end, desired_ends, end_leaves_the_lookahead, end_set, frontier, greatest_exists,
    greatest_is, is_greatest, refreshed, watched_end,
};
use crate::json::{named_field_at, JsonModel};
use crate::lifecycle::{
    reframed, reframed_apart, registration, rescan_record, resumes_registration, update_record,
    UpdateStep,
};
use crate::model::{
    is_name_char, name_fault, outpoint_owner_text, owner_prefix_text, parsed_owner,
    script_owner_text, ConfigModel, DescriptorStatus, IssuedModel, MatchModel, MovementKind,
    MovementModel, OwnerModel, RecordModel, UtxoModel, OWNER_PREFIX,
};
use crate::ordered::{sorted_keys, sorted_values};
use crate::reorg::{
    deposited, is_clear_of, is_spent_at, movement_reverted, movements_at, movements_reverted,
    outputs_removed, received_at, reorg_reported, reverted, spends_cleared,
};
use crate::restore::{
    has_none, loaded, moved_cursors, record_added, stored_address_fault, taken_up, used_indexes,
    used_indexes_are_the_greatest, with_branch_ends, with_used_indexes,
};
use crate::scripts::{
    accepted_configuration_is_sound, config_set, overlap_among, overlap_refusal, registered_scripts,
    script_texts, scripts_meet, watched_scripts, watched_scripts_are_whole, watched_scripts_upto,
};
use crate::state::{
    are_named, book_put, failure_reported, first_state, record_put, record_removed, reorg_counted,
    scan_begun, scan_ended, StateModel, TrackerModel,
};
use crate::text::{begins_with, decimal_is_digits, decimal_text, is_digit, parts};
use crate::watches::{
    expected_set, expected_watches_carry_the_prefix, is_owned, orphan_removals, output_watch,
    outputs_keyed, watch_plan,
};
use vstd::prelude::*;

verus! {

/// The name of a descriptor holds no slash, so that it is one part of the path
/// of an owner.
pub proof fn name_is_one_part(name: Seq<char>)
    requires
        name_fault(name) is None,
    ensures
        name.len() > 0,
        !name.contains('/'),
{
    if name.contains('/') {
        let i = choose|i: int| 0 <= i < name.len() && name[i] == '/';
        assert(!is_name_char(name[i]));
    }
}

/// The digits of a number hold no slash.
proof fn decimal_is_one_part(n: nat)
    ensures
        !decimal_text(n).contains('/'),
{
    crate::text::decimal_is_digits(n);
    let text = decimal_text(n);
    if text.contains('/') {
        let i = choose|i: int| 0 <= i < text.len() && text[i] == '/';
        assert(is_digit(text[i]));
    }
}

/// The owner of a script watch says which script it is: the descriptor, the
/// branch and the index can be read from it.
pub proof fn script_owner_round_trip(name: Seq<char>, branch: u32, index: u32)
    requires
        name_fault(name) is None,
    ensures
        parsed_owner(script_owner_text(name, branch, index)) == Some(
            (OwnerModel::Script { name, branch, index }),
        ),
{
    let own = OWNER_PREFIX@ + seq!['/'];
    let owner = script_owner_text(name, branch, index);
    let b = decimal_text(branch as nat);
    let i = decimal_text(index as nat);
    let rest = name + seq!['/'] + ("spk"@ + seq!['/'] + (b + seq!['/'] + i));
    reveal_strlit("spk/");
    reveal_strlit("spk");
    assert("spk/"@ =~= "spk"@ + seq!['/']);
    assert(owner =~= own + rest);
    assert(owner.take(own.len() as int) =~= own);
    assert(owner.skip(own.len() as int) =~= rest);
    name_is_one_part(name);
    decimal_is_one_part(branch as nat);
    decimal_is_one_part(index as nat);
    assert(!"spk"@.contains('/'));
    crate::text::parts_of_whole(name, '/');
    crate::text::parts_of_whole("spk"@, '/');
    crate::text::parts_of_whole(b, '/');
    crate::text::parts_of_whole(i, '/');
    crate::text::parts_of_joined(b, i, '/');
    crate::text::parts_of_joined("spk"@, b + seq!['/'] + i, '/');
    crate::text::parts_of_joined(name, "spk"@ + seq!['/'] + (b + seq!['/'] + i), '/');
    let fields = parts(rest, '/');
    assert(fields =~= seq![name, "spk"@, b, i]);
    crate::text::decimal_round_trip(branch as nat, u32::MAX as nat);
    crate::text::decimal_round_trip(index as nat, u32::MAX as nat);
}

/// The owner of an outpoint watch says which output it is: the descriptor and
/// the outpoint can be read from it.
pub proof fn outpoint_owner_round_trip(name: Seq<char>, outpoint: Seq<char>)
    requires
        name_fault(name) is None,
        !outpoint.contains('/'),
    ensures
        parsed_owner(outpoint_owner_text(name, outpoint)) == Some(
            (OwnerModel::Outpoint { name, outpoint }),
        ),
{
    let own = OWNER_PREFIX@ + seq!['/'];
    let owner = outpoint_owner_text(name, outpoint);
    let rest = name + seq!['/'] + ("outpoint"@ + seq!['/'] + outpoint);
    reveal_strlit("outpoint/");
    reveal_strlit("outpoint");
    assert("outpoint/"@ =~= "outpoint"@ + seq!['/']);
    assert(owner =~= own + rest);
    assert(owner.take(own.len() as int) =~= own);
    assert(owner.skip(own.len() as int) =~= rest);
    name_is_one_part(name);
    assert(!"outpoint"@.contains('/'));
    crate::text::parts_of_whole(name, '/');
    crate::text::parts_of_whole("outpoint"@, '/');
    crate::text::parts_of_whole(outpoint, '/');
    crate::text::parts_of_joined("outpoint"@, outpoint, '/');
    crate::text::parts_of_joined(name, "outpoint"@ + seq!['/'] + outpoint, '/');
    let fields = parts(rest, '/');
    assert(fields =~= seq![name, "outpoint"@, outpoint]);
}

/// No owner of one descriptor begins with the prefix of another: what is done
/// to the watches under a prefix concerns one descriptor.
pub proof fn prefixes_are_apart(name: Seq<char>, other: Seq<char>, owner: Seq<char>)
    requires
        name_fault(name) is None,
        name_fault(other) is None,
        begins_with(owner, owner_prefix_text(name)),
        begins_with(owner, owner_prefix_text(other)),
    ensures
        name == other,
{
    let own = OWNER_PREFIX@ + seq!['/'];
    let a = owner_prefix_text(name);
    let b = owner_prefix_text(other);
    let start = own.len() as int;
    name_is_one_part(name);
    name_is_one_part(other);
    assert(a =~= own + name + seq!['/']);
    assert(b =~= own + other + seq!['/']);
    assert forall|i: int| 0 <= i < name.len() implies owner[start + i] == #[trigger] name[i] by {
        assert(owner.take(a.len() as int)[start + i] == a[start + i]);
    }
    assert forall|i: int| 0 <= i < other.len() implies owner[start + i] == #[trigger] other[i] by {
        assert(owner.take(b.len() as int)[start + i] == b[start + i]);
    }
    assert(owner.take(a.len() as int)[start + name.len()] == a[start + name.len()]);
    assert(owner.take(b.len() as int)[start + other.len()] == b[start + other.len()]);
    assert(owner[start + name.len()] == '/');
    assert(owner[start + other.len()] == '/');
    if name.len() < other.len() {
        assert(other[name.len() as int] == '/');
        assert(other.contains('/'));
    }
    if other.len() < name.len() {
        assert(name[other.len() as int] == '/');
        assert(name.contains('/'));
    }
    assert(name =~= other);
}

/// The watches that an entry gives carry the prefix that was asked for.
proof fn entry_watches_carry_prefix(
    entry: JsonModel,
    owners: Seq<JsonModel>,
    count: nat,
    prefix: Seq<char>,
)
    requires
        entry_watches(entry, owners, count, prefix) is Ok,
    ensures
        forall|i: int|
            0 <= i < entry_watches(entry, owners, count, prefix)->Ok_0.len() ==> begins_with(
                (#[trigger] entry_watches(entry, owners, count, prefix)->Ok_0[i]).owner(),
                prefix,
            ),
    decreases count,
{
    if count > 0 {
        entry_watches_carry_prefix(entry, owners, (count - 1) as nat, prefix);
    }
}

/// The watches of the first entries carry the prefix that was asked for.
proof fn listed_watches_carry_prefix(entries: Seq<JsonModel>, count: nat, prefix: Seq<char>)
    requires
        listed_watches(entries, count, prefix) is Ok,
    ensures
        forall|i: int|
            0 <= i < listed_watches(entries, count, prefix)->Ok_0.len() ==> begins_with(
                (#[trigger] listed_watches(entries, count, prefix)->Ok_0[i]).owner(),
                prefix,
            ),
    decreases count,
{
    if count > 0 {
        let entry = entries[count - 1];
        let owners = entry.list_field("owners"@)->Some_0;
        listed_watches_carry_prefix(entries, (count - 1) as nat, prefix);
        entry_watches_carry_prefix(entry, owners, owners.len(), prefix);
    }
}

/// Of all the watches of a node only those are read whose owner carries the
/// prefix that was asked for.
pub proof fn only_owned_watches_are_read(reply: JsonModel, prefix: Seq<char>, i: int)
    requires
        reply_watches(reply, prefix) is Ok,
        0 <= i < reply_watches(reply, prefix)->Ok_0.len(),
    ensures
        begins_with(reply_watches(reply, prefix)->Ok_0[i].owner(), prefix),
{
    let entries = reply.list_field("watches"@)->Some_0;
    listed_watches_carry_prefix(entries, entries.len(), prefix);
}

/// The id of a movement says what it is of: that of a deposit names its output
/// and is never that of a spend, and that of a spend names its output and the
/// transaction, whose own id holds no colon.
pub proof fn movement_ids_are_told_apart(
    outpoint: Seq<char>,
    other: Seq<char>,
    spending_txid: Seq<char>,
    other_txid: Seq<char>,
)
    ensures
        deposit_id(outpoint) == deposit_id(other) ==> outpoint == other,
        deposit_id(outpoint) != spend_id(other, spending_txid),
        !spending_txid.contains(':') && !other_txid.contains(':') && spend_id(
            outpoint,
            spending_txid,
        ) == spend_id(other, other_txid) ==> outpoint == other && spending_txid == other_txid,
{
    reveal_strlit("deposit:");
    reveal_strlit("spend:");
    let a = deposit_id(outpoint);
    if a == deposit_id(other) {
        assert(a.skip(8) =~= outpoint);
        assert(deposit_id(other).skip(8) =~= other);
    }
    assert(a[0] == 'd');
    assert(spend_id(other, spending_txid)[0] == 's');
    let mine = spend_id(outpoint, spending_txid);
    let theirs = spend_id(other, other_txid);
    if !spending_txid.contains(':') && !other_txid.contains(':') && mine == theirs {
        reveal_strlit(":");
        let total = mine.len();
        assert(mine[total - spending_txid.len() - 1] == ':');
        assert(theirs[total - other_txid.len() - 1] == ':');
        if spending_txid.len() < other_txid.len() {
            let i = other_txid.len() - spending_txid.len() - 1;
            assert(theirs[total - spending_txid.len() - 1] == other_txid[i]);
        } else if other_txid.len() < spending_txid.len() {
            let i = spending_txid.len() - other_txid.len() - 1;
            assert(mine[total - other_txid.len() - 1] == spending_txid[i]);
        }
        assert(mine.skip(total - spending_txid.len()) =~= spending_txid);
        assert(theirs.skip(total - other_txid.len()) =~= other_txid);
        assert(mine.subrange(6, total - spending_txid.len() - 1) =~= outpoint);
        assert(theirs.subrange(6, total - other_txid.len() - 1) =~= other);
    }
}

/// A descriptor is accepted only with a checksum of eight characters that
/// stands for what is before it.
pub proof fn accepted_descriptor_has_a_checksum(text: Seq<char>, network: Seq<char>)
    requires
        checked_set(text, network) is Ok,
    ensures
        text.contains('#'),
        checksum_body(text) is Ok,
        text.len() == checksum_body(text)->Ok_0.len() + 1 + 8,
{
}

/// What growing the first branches to an end leaves.
proof fn grown_branches_reach(record: RecordModel, set: SetModel, end: u32, count: nat)
    requires
        grown_branches(record, set, end, count) is Ok,
        count <= u32::MAX,
    ensures
        ({
            let ends = grown_branches(record, set, end, count)->Ok_0.0;
            &&& forall|b: u32|
                b < count && watched_end(record, b) < end ==> #[trigger] ends.contains_key(b)
                    && ends[b] == end
            &&& forall|b: u32|
                !(b < count && watched_end(record, b) < end) ==> (#[trigger] ends.contains_key(b)
                    <==> record.range_ends.contains_key(b)) && (ends.contains_key(b) ==> ends[b]
                    == record.range_ends[b])
        }),
    decreases count,
{
    if count > 0 {
        grown_branches_reach(record, set, end, (count - 1) as nat);
    }
}

/// After an index was used every branch is watched a whole lookahead beyond
/// it, and none less far than before.
pub proof fn used_index_leaves_the_gap(
    record: RecordModel,
    set: SetModel,
    branch: u32,
    index: u32,
    other: u32,
)
    requires
        frontier_moved(record, set, branch, index) is Ok,
        set.branches <= u32::MAX,
        other < set.branches,
    ensures
        ({
            let moved = frontier_moved(record, set, branch, index)->Ok_0.0;
            &&& watched_end(moved, other) >= index + 1 + record.config.lookahead
            &&& watched_end(moved, other) >= watched_end(record, other)
        }),
{
    let end = desired_end(Some(index), record.config.lookahead)->Ok_0;
    grown_branches_reach(record, set, end, set.branches);
    let moved = frontier_moved(record, set, branch, index)->Ok_0.0;
    assert(moved.range_ends.contains_key(other) || !moved.range_ends.contains_key(other));
}

/// A use of an index is never forgotten: the frontier of its branch is at or
/// beyond it, and none goes back.
pub proof fn used_index_is_remembered(
    record: RecordModel,
    set: SetModel,
    branch: u32,
    index: u32,
    other: u32,
)
    requires
        frontier_moved(record, set, branch, index) is Ok,
    ensures
        ({
            let moved = frontier_moved(record, set, branch, index)->Ok_0.0;
            &&& frontier(moved, branch) is Some
            &&& frontier(moved, branch)->Some_0 >= index
            &&& moved.last_used_index is Some
            &&& moved.last_used_index->Some_0 >= index
            &&& frontier(record, other) is Some ==> frontier(moved, other) is Some
                && frontier(moved, other)->Some_0 >= frontier(record, other)->Some_0
            &&& record.last_used_index is Some ==> moved.last_used_index->Some_0
                >= record.last_used_index->Some_0
        }),
{
}

/// The end that a lookahead asks for leaves as many indexes unused on a branch.
proof fn desired_end_is_reached(
    record: RecordModel,
    count: nat,
    lookahead: u32,
    raise: bool,
    b: u32,
)
    requires
        desired_ends(record, count, lookahead, raise) is Ok,
        b < count <= u32::MAX,
    ensures
        desired_ends(record, count, lookahead, raise)->Ok_0.contains_key(b),
        desired_end(frontier(record, b), lookahead) is Ok,
        desired_ends(record, count, lookahead, raise)->Ok_0[b] >= desired_end(
            frontier(record, b),
            lookahead,
        )->Ok_0,
        !raise ==> desired_ends(record, count, lookahead, raise)->Ok_0[b] == desired_end(
            frontier(record, b),
            lookahead,
        )->Ok_0,
    decreases count,
{
    if b < count - 1 {
        desired_end_is_reached(record, (count - 1) as nat, lookahead, raise, b);
    }
}

/// Raising the ends of branches lowers none.
proof fn raised_end_stays(record: RecordModel, count: nat, lookahead: u32, b: u32)
    requires
        desired_ends(record, count, lookahead, true) is Ok,
        record.range_ends.contains_key(b),
    ensures
        desired_ends(record, count, lookahead, true)->Ok_0.contains_key(b),
        desired_ends(record, count, lookahead, true)->Ok_0[b] >= record.range_ends[b],
    decreases count,
{
    if count > 0 {
        raised_end_stays(record, (count - 1) as nat, lookahead, b);
    }
}

/// After a change of the lookahead each branch is watched exactly that many
/// indexes beyond the last one that was used or given out.
pub proof fn lookahead_is_the_gap(
    record: RecordModel,
    set: SetModel,
    lookahead: u32,
    confirmations: u32,
    branch: u32,
)
    requires
        reframed(record, set, lookahead, confirmations) is Ok,
        set.branches <= u32::MAX,
        branch < set.branches,
    ensures
        ({
            let after = reframed(record, set, lookahead, confirmations)->Ok_0;
            &&& after.config.lookahead == lookahead
            &&& watched_end(after, branch) == (match frontier(record, branch) {
                Some(last) => last + 1 + lookahead,
                None => lookahead as int,
            })
        }),
{
    let configured = RecordModel {
        config: ConfigModel { lookahead, confirmations, ..record.config },
        ..record
    };
    desired_end_is_reached(configured, set.branches, lookahead, false, branch);
    assert(frontier(configured, branch) == frontier(record, branch));
}

/// A stored record that is taken up again is watched a whole lookahead beyond
/// the last index that was used or given out on each branch, and on no branch
/// less far than it was stored with.
pub proof fn taken_up_record_has_the_gap(
    record: RecordModel,
    set: SetModel,
    addresses: Seq<IssuedModel>,
    network: Seq<char>,
    branch: u32,
)
    requires
        taken_up(record, set, addresses, network) is Ok,
        set.branches <= u32::MAX,
        branch < set.branches,
    ensures
        ({
            let after = taken_up(record, set, addresses, network)->Ok_0;
            &&& after.range_ends.contains_key(branch)
            &&& after.range_ends[branch] >= (match frontier(after, branch) {
                Some(last) => last + 1 + record.config.lookahead,
                None => record.config.lookahead as int,
            })
            &&& record.range_ends.contains_key(branch) ==> after.range_ends[branch]
                >= record.range_ends[branch]
        }),
{
    let prepared = with_used_indexes(with_branch_ends(record, set.branches));
    let cursors = moved_cursors(
        prepared.next_indexes,
        set,
        record.config.name,
        addresses,
        addresses.len(),
        network,
    )->Ok_0;
    let moved = RecordModel { next_indexes: cursors, ..prepared };
    desired_end_is_reached(moved, set.branches, record.config.lookahead, true, branch);
    let after = taken_up(record, set, addresses, network)->Ok_0;
    assert(frontier(after, branch) == frontier(moved, branch));
    if record.range_ends.contains_key(branch) {
        assert(record.range_ends != Map::<u32, u32>::empty());
        assert(moved.range_ends == record.range_ends);
        raised_end_stays(moved, set.branches, record.config.lookahead, branch);
    }
}

/// A deposit that was recorded is known when its match comes again, and its
/// movement waits: a replay records nothing twice.
pub proof fn replayed_deposit_is_known(
    state: StateModel,
    name: Seq<char>,
    branch: u32,
    index: u32,
    event: MatchModel,
    output: ObservedModel,
    timestamp: u64,
    annotation: Option<Seq<char>>,
)
    requires
        deposit_step(state, name, branch, index, event, output) == Ok::<MatchStep, RefusalModel>(
            MatchStep::New,
        ),
        deposit_recorded(
            state,
            name,
            branch,
            index,
            output,
            event.blockheight,
            timestamp,
            annotation,
        ) is Ok,
    ensures
        ({
            let record = deposit_recorded(
                state,
                name,
                branch,
                index,
                output,
                event.blockheight,
                timestamp,
                annotation,
            )->Ok_0.0;
            let later = StateModel {
                inner: TrackerModel {
                    records: state.inner.records.insert(name, record),
                    ..state.inner
                },
                ..state
            };
            deposit_step(later, name, branch, index, event, output) == Ok::<
                MatchStep,
                RefusalModel,
            >(MatchStep::Known { pending: true })
        }),
{
}

/// A spend that was recorded is known when its match comes again, and its
/// movement waits: a replay records nothing twice.
pub proof fn replayed_spend_is_known(
    state: StateModel,
    name: Seq<char>,
    outpoint: Seq<char>,
    spending_txid: Seq<char>,
    blockheight: u32,
    timestamp: u64,
)
    requires
        spend_step(state, name, outpoint, spending_txid) == Ok::<MatchStep, RefusalModel>(
            MatchStep::New,
        ),
    ensures
        ({
            let record = output_spent(
                state.inner.records[name],
                outpoint,
                spending_txid,
                blockheight,
                timestamp,
            );
            let later = StateModel {
                inner: TrackerModel {
                    records: state.inner.records.insert(name, record),
                    ..state.inner
                },
                ..state
            };
            spend_step(later, name, outpoint, spending_txid) == Ok::<MatchStep, RefusalModel>(
                MatchStep::Known { pending: true },
            )
        }),
{
}

/// A match before the birth of a descriptor, or of one that is being deleted,
/// does not count.
pub proof fn early_match_is_ignored(
    state: StateModel,
    name: Seq<char>,
    branch: u32,
    index: u32,
    event: MatchModel,
    output: ObservedModel,
    outpoint: Seq<char>,
    spending_txid: Seq<char>,
)
    requires
        state.inner.records.contains_key(name),
    ensures
        ({
            let record = state.inner.records[name];
            let ignored = Ok::<MatchStep, RefusalModel>(MatchStep::Ignored);
            &&& event.blockheight < record.config.birthheight || record.status
                == DescriptorStatus::Deleting ==> deposit_step(
                state,
                name,
                branch,
                index,
                event,
                output,
            ) == ignored
            &&& record.status == DescriptorStatus::Deleting ==> spend_step(
                state,
                name,
                outpoint,
                spending_txid,
            ) == ignored
        }),
{
}

/// Outputs and pending movements of a record are kept under their own names,
/// and there are finitely many.
pub open spec fn is_keyed(record: RecordModel) -> bool {
    &&& outputs_keyed(record)
    &&& movements_keyed(record.pending_movements)
    &&& record.utxos.dom().finite()
    &&& record.pending_movements.dom().finite()
}

/// A deposit, a spend and a delivery keep outputs and movements under their
/// own names.
pub proof fn changes_keep_keys(
    record: RecordModel,
    output: ObservedModel,
    branch: u32,
    index: u32,
    blockheight: u32,
    timestamp: u64,
    annotation: Option<Seq<char>>,
    outpoint: Seq<char>,
    spending_txid: Seq<char>,
    id: Seq<char>,
    now: u64,
)
    requires
        is_keyed(record),
    ensures
        is_keyed(
            output_kept(record, output, branch, index, blockheight, timestamp, annotation),
        ),
        record.utxos.contains_key(outpoint) ==> is_keyed(
            output_spent(record, outpoint, spending_txid, blockheight, timestamp),
        ),
        is_keyed(movement_delivered(record, id, now)),
{
}

/// What taking back movements leaves of a keyed record.
proof fn movements_reverted_keep(
    record: RecordModel,
    movements: Seq<MovementModel>,
    count: nat,
)
    requires
        is_keyed(record),
        count <= movements.len(),
    ensures
        ({
            let after = movements_reverted(record, movements, count);
            &&& is_keyed(after)
            &&& forall|id: Seq<char>| #[trigger]
                after.pending_movements.contains_key(id) <==> record.pending_movements.contains_key(
                    id,
                ) && forall|j: int| 0 <= j < count ==> (#[trigger] movements[j]).id != id
            &&& forall|id: Seq<char>| #[trigger]
                after.pending_movements.contains_key(id) ==> after.pending_movements[id]
                    == record.pending_movements[id]
            &&& after.config == record.config
            &&& after.status == record.status
        }),
    decreases count,
{
    if count > 0 {
        movements_reverted_keep(record, movements, (count - 1) as nat);
        let before = movements_reverted(record, movements, (count - 1) as nat);
        let after = movements_reverted(record, movements, count);
        assert(after == movement_reverted(before, movements[count - 1]));
        assert forall|id: Seq<char>| #[trigger]
            after.pending_movements.contains_key(id) <==> record.pending_movements.contains_key(id)
                && forall|j: int| 0 <= j < count ==> (#[trigger] movements[j]).id != id by {
            assert(after.pending_movements.contains_key(id)
                <==> before.pending_movements.contains_key(id) && movements[count - 1].id != id);
            if before.pending_movements.contains_key(id) && movements[count - 1].id != id {
                assert forall|j: int| 0 <= j < count implies (#[trigger] movements[j]).id != id by {
                    if j < count - 1 {
                        assert(movements[j].id != id);
                    }
                }
            }
        }
    }
}

/// The movements of a row at a height hold each of them.
proof fn movements_at_hold(movements: Seq<MovementModel>, height: u32, i: int)
    requires
        0 <= i < movements.len(),
        movements[i].blockheight == height,
    ensures
        movements_at(movements, height).contains(movements[i]),
    decreases movements.len(),
{
    let rest = movements_at(movements.drop_last(), height);
    if i == movements.len() - 1 {
        assert(movements_at(movements, height)[rest.len() as int] == movements[i]);
    } else {
        assert(movements.drop_last()[i] == movements[i]);
        movements_at_hold(movements.drop_last(), height, i);
        let n = choose|n: int| 0 <= n < rest.len() && rest[n] == movements[i];
        assert(movements_at(movements, height)[n] == movements[i]);
    }
}

/// The outpoints that were received at a height hold each of them.
proof fn received_at_hold(outputs: Seq<UtxoModel>, height: u32, i: int)
    requires
        0 <= i < outputs.len(),
        outputs[i].deposit_height == height,
    ensures
        received_at(outputs, height).contains(outputs[i].outpoint),
    decreases outputs.len(),
{
    let rest = received_at(outputs.drop_last(), height);
    if i == outputs.len() - 1 {
        assert(received_at(outputs, height)[rest.len() as int] == outputs[i].outpoint);
    } else {
        assert(outputs.drop_last()[i] == outputs[i]);
        received_at_hold(outputs.drop_last(), height, i);
        let n = choose|n: int| 0 <= n < rest.len() && rest[n] == outputs[i].outpoint;
        assert(received_at(outputs, height)[n] == outputs[i].outpoint);
    }
}

/// What removing outpoints leaves.
proof fn outputs_removed_keep(
    outputs: Map<Seq<char>, UtxoModel>,
    outpoints: Seq<Seq<char>>,
    count: nat,
)
    requires
        count <= outpoints.len(),
        outputs.dom().finite(),
    ensures
        ({
            let after = outputs_removed(outputs, outpoints, count);
            &&& after.dom().finite()
            &&& forall|key: Seq<char>| #[trigger]
                after.contains_key(key) <==> outputs.contains_key(key) && forall|j: int|
                    0 <= j < count ==> #[trigger] outpoints[j] != key
            &&& forall|key: Seq<char>| #[trigger]
                after.contains_key(key) ==> after[key] == outputs[key]
        }),
    decreases count,
{
    if count > 0 {
        outputs_removed_keep(outputs, outpoints, (count - 1) as nat);
        let before = outputs_removed(outputs, outpoints, (count - 1) as nat);
        let after = outputs_removed(outputs, outpoints, count);
        assert forall|key: Seq<char>| #[trigger]
            after.contains_key(key) <==> outputs.contains_key(key) && forall|j: int|
                0 <= j < count ==> #[trigger] outpoints[j] != key by {
            assert(after.contains_key(key) <==> before.contains_key(key) && outpoints[count - 1]
                != key);
            if before.contains_key(key) && outpoints[count - 1] != key {
                assert forall|j: int| 0 <= j < count implies #[trigger] outpoints[j] != key by {
                    if j < count - 1 {
                        assert(outpoints[j] != key);
                    }
                }
            }
        }
    }
}

/// Once a block is reverted a record has nothing left of it: no pending
/// movement, no output and no spend of its height. The record stays keyed, and
/// its configuration stays.
pub proof fn reverted_block_leaves_nothing(record: RecordModel, height: u32)
    requires
        is_keyed(record),
    ensures
        is_clear_of(reverted(record, height).record, height),
        is_keyed(reverted(record, height).record),
        reverted(record, height).record.config == record.config,
        reverted(record, height).record.status == record.status,
{
    let keys = sorted_keys(record.pending_movements.dom());
    let all = sorted_values(record.pending_movements);
    let pending = movements_at(all, height);
    crate::ordered::sorted_keys_of(record.pending_movements.dom());
    movements_reverted_keep(record, pending, pending.len());
    let taken_back = movements_reverted(record, pending, pending.len());
    assert forall|id: Seq<char>| #[trigger]
        taken_back.pending_movements.contains_key(
            id,
        ) implies taken_back.pending_movements[id].blockheight != height by {
        if record.pending_movements[id].blockheight == height {
            assert(keys.to_set().contains(id));
            let i = choose|i: int| 0 <= i < keys.len() && keys[i] == id;
            assert(all[i] == record.pending_movements[id]);
            movements_at_hold(all, height, i);
            let n = choose|n: int| 0 <= n < pending.len() && pending[n] == all[i];
            assert(pending[n].id == id);
        }
    }
    let places = sorted_keys(taken_back.utxos.dom());
    let outputs = sorted_values(taken_back.utxos);
    let received = received_at(outputs, height);
    crate::ordered::sorted_keys_of(taken_back.utxos.dom());
    outputs_removed_keep(taken_back.utxos, received, received.len());
    let kept = outputs_removed(taken_back.utxos, received, received.len());
    assert forall|key: Seq<char>| #[trigger] kept.contains_key(key) implies kept[key].deposit_height
        != height by {
        if taken_back.utxos[key].deposit_height == height {
            assert(places.to_set().contains(key));
            let i = choose|i: int| 0 <= i < places.len() && places[i] == key;
            assert(outputs[i] == taken_back.utxos[key]);
            received_at_hold(outputs, height, i);
            let n = choose|n: int| 0 <= n < received.len() && received[n] == outputs[i].outpoint;
            assert(received[n] == key);
        }
    }
    let cleared = spends_cleared(kept, height);
    assert(cleared.dom() =~= kept.dom());
    assert forall|key: Seq<char>| #[trigger] cleared.contains_key(key) implies cleared[key].outpoint
        == key && cleared[key].deposit_height != height && !is_spent_at(cleared[key], height) by {
        assert(kept.contains_key(key));
        assert(taken_back.utxos.contains_key(key));
    }
}

/// One of the first `count` movements of a row is of a kind and of an output.
pub open spec fn names_output(
    movements: Seq<MovementModel>,
    count: nat,
    kind: MovementKind,
    outpoint: Seq<char>,
) -> bool {
    exists|j: int|
        0 <= j < count && (#[trigger] movements[j]).kind == kind && movements[j].outpoint
            == outpoint
}

/// What taking back movements leaves of an output.
proof fn movements_reverted_outputs(
    record: RecordModel,
    movements: Seq<MovementModel>,
    count: nat,
    height: u32,
    key: Seq<char>,
)
    requires
        count <= movements.len(),
    ensures
        ({
            let before = record.utxos;
            let after = movements_reverted(record, movements, count).utxos;
            &&& after.contains_key(key) <==> before.contains_key(key) && !names_output(
                movements,
                count,
                MovementKind::Deposit,
                key,
            )
            &&& after.contains_key(key) ==> after[key].deposit_height == before[key].deposit_height
            &&& after.contains_key(key) ==> (is_spent_at(after[key], height) <==> is_spent_at(
                before[key],
                height,
            ) && !names_output(movements, count, MovementKind::Spend, key))
        }),
    decreases count,
{
    if count > 0 {
        let fewer = (count - 1) as nat;
        movements_reverted_outputs(record, movements, fewer, height, key);
        let last = movements[count - 1];
        assert forall|kind: MovementKind|
            names_output(movements, count, kind, key) == (#[trigger] names_output(
                movements,
                fewer,
                kind,
                key,
            ) || last.kind == kind && last.outpoint == key) by {
            if names_output(movements, fewer, kind, key) {
                let j = choose|j: int|
                    0 <= j < fewer && (#[trigger] movements[j]).kind == kind
                        && movements[j].outpoint == key;
                assert(0 <= j < count && movements[j].kind == kind);
            }
            if names_output(movements, count, kind, key) {
                let j = choose|j: int|
                    0 <= j < count && (#[trigger] movements[j]).kind == kind
                        && movements[j].outpoint == key;
                assert(j < fewer ==> movements[j].kind == kind);
            }
        }
    }
}

/// The movements of a row at a height are of that height.
proof fn movements_at_only(movements: Seq<MovementModel>, height: u32, n: int)
    requires
        0 <= n < movements_at(movements, height).len(),
    ensures
        movements_at(movements, height)[n].blockheight == height,
        movements.contains(movements_at(movements, height)[n]),
    decreases movements.len(),
{
    let rest = movements_at(movements.drop_last(), height);
    if n < rest.len() {
        movements_at_only(movements.drop_last(), height, n);
        let i = choose|i: int|
            0 <= i < movements.len() - 1 && movements.drop_last()[i] == rest[n];
        assert(movements[i] == rest[n]);
    } else {
        assert(movements[movements.len() - 1] == movements_at(movements, height)[n]);
    }
}

/// The outpoints that were received at a height are those of outputs.
proof fn received_at_only(outputs: Seq<UtxoModel>, height: u32, n: int) -> (i: int)
    requires
        0 <= n < received_at(outputs, height).len(),
    ensures
        0 <= i < outputs.len(),
        outputs[i].deposit_height == height,
        outputs[i].outpoint == received_at(outputs, height)[n],
    decreases outputs.len(),
{
    let rest = received_at(outputs.drop_last(), height);
    if n < rest.len() {
        let i = received_at_only(outputs.drop_last(), height, n);
        assert(outputs[i] == outputs.drop_last()[i]);
        i
    } else {
        outputs.len() - 1
    }
}

/// A movement of a kind and of an output waits at a height.
pub open spec fn waits(
    record: RecordModel,
    kind: MovementKind,
    outpoint: Seq<char>,
    height: u32,
) -> bool {
    exists|id: Seq<char>| #[trigger]
        record.pending_movements.contains_key(id) && record.pending_movements[id].kind == kind
            && record.pending_movements[id].outpoint == outpoint
            && record.pending_movements[id].blockheight == height
}

/// Bookkeeper was told of a deposit or a spend of an output at a height.
pub open spec fn is_booked_at(record: RecordModel, outpoint: Seq<char>, height: u32) -> bool {
    &&& record.utxos.contains_key(outpoint)
    &&& !waits(record, MovementKind::Deposit, outpoint, height)
    &&& record.utxos[outpoint].deposit_height == height || is_spent_at(
        record.utxos[outpoint],
        height,
    ) && !waits(record, MovementKind::Spend, outpoint, height)
}

/// What waits at a height is what the movements of the height name.
proof fn waiting_is_named(
    record: RecordModel,
    kind: MovementKind,
    outpoint: Seq<char>,
    height: u32,
)
    requires
        is_keyed(record),
    ensures
        ({
            let pending = movements_at(sorted_values(record.pending_movements), height);
            waits(record, kind, outpoint, height) == names_output(
                pending,
                pending.len(),
                kind,
                outpoint,
            )
        }),
{
    let keys = sorted_keys(record.pending_movements.dom());
    let all = sorted_values(record.pending_movements);
    let pending = movements_at(all, height);
    crate::ordered::sorted_keys_of(record.pending_movements.dom());
    if waits(record, kind, outpoint, height) {
        let id = choose|id: Seq<char>| #[trigger]
            record.pending_movements.contains_key(id) && record.pending_movements[id].kind == kind
                && record.pending_movements[id].outpoint == outpoint
                && record.pending_movements[id].blockheight == height;
        assert(keys.to_set().contains(id));
        let i = choose|i: int| 0 <= i < keys.len() && keys[i] == id;
        assert(all[i] == record.pending_movements[id]);
        movements_at_hold(all, height, i);
        let n = choose|n: int| 0 <= n < pending.len() && pending[n] == all[i];
        assert(pending[n].kind == kind);
    }
    if names_output(pending, pending.len(), kind, outpoint) {
        let n = choose|n: int|
            0 <= n < pending.len() && (#[trigger] pending[n]).kind == kind && pending[n].outpoint
                == outpoint;
        movements_at_only(all, height, n);
        let i = choose|i: int| 0 <= i < all.len() && all[i] == pending[n];
        assert(keys.contains(keys[i]));
        assert(keys.to_set().contains(keys[i]));
        assert(record.pending_movements.contains_key(keys[i]));
        assert(record.pending_movements[keys[i]] == pending[n]);
    }
}

/// A block that is reverted is said to be booked exactly where Bookkeeper was
/// told of a deposit or a spend in it: what only waited is dropped in silence.
pub proof fn booked_movement_is_noticed(record: RecordModel, height: u32)
    requires
        is_keyed(record),
    ensures
        reverted(record, height).booked <==> exists|outpoint: Seq<char>|
            is_booked_at(record, outpoint, height),
{
    let pending = movements_at(sorted_values(record.pending_movements), height);
    movements_reverted_keep(record, pending, pending.len());
    let taken_back = movements_reverted(record, pending, pending.len());
    let places = sorted_keys(taken_back.utxos.dom());
    let outputs = sorted_values(taken_back.utxos);
    let received = received_at(outputs, height);
    crate::ordered::sorted_keys_of(taken_back.utxos.dom());
    outputs_removed_keep(taken_back.utxos, received, received.len());
    let kept = outputs_removed(taken_back.utxos, received, received.len());
    if exists|outpoint: Seq<char>| is_booked_at(record, outpoint, height) {
        let outpoint = choose|outpoint: Seq<char>| is_booked_at(record, outpoint, height);
        waiting_is_named(record, MovementKind::Deposit, outpoint, height);
        waiting_is_named(record, MovementKind::Spend, outpoint, height);
        movements_reverted_outputs(record, pending, pending.len(), height, outpoint);
        assert(taken_back.utxos.contains_key(outpoint));
        if received.len() == 0 {
            assert(kept.contains_key(outpoint));
            if taken_back.utxos[outpoint].deposit_height == height {
                assert(places.to_set().contains(outpoint));
                let i = choose|i: int| 0 <= i < places.len() && places[i] == outpoint;
                assert(outputs[i] == taken_back.utxos[outpoint]);
                received_at_hold(outputs, height, i);
            }
        }
    }
    if reverted(record, height).booked {
        let outpoint = if received.len() > 0 {
            let i = received_at_only(outputs, height, 0);
            assert(places.contains(places[i]));
            assert(places.to_set().contains(places[i]));
            places[i]
        } else {
            choose|key: Seq<char>| #[trigger] kept.contains_key(key) && is_spent_at(kept[key], height)
        };
        assert(taken_back.utxos.contains_key(outpoint));
        waiting_is_named(record, MovementKind::Deposit, outpoint, height);
        waiting_is_named(record, MovementKind::Spend, outpoint, height);
        movements_reverted_outputs(record, pending, pending.len(), height, outpoint);
        assert(is_booked_at(record, outpoint, height));
    }
}

/// No script of one row is a script of another.
pub open spec fn are_apart(scripts: Seq<ScriptModel>, others: Seq<ScriptModel>) -> bool {
    forall|i: int, j: int|
        0 <= i < scripts.len() && 0 <= j < others.len() ==> (#[trigger] scripts[i]).scriptpubkey
            != (#[trigger] others[j]).scriptpubkey
}

/// Scripts that were not refused are watched by no other descriptor under the
/// keys of a row.
proof fn scripts_apart_among(
    candidate: Seq<char>,
    texts: Set<Seq<char>>,
    records: Map<Seq<char>, RecordModel>,
    keys: Seq<Seq<char>>,
    network: Seq<char>,
    i: int,
)
    requires
        overlap_among(candidate, texts, records, keys, network) is None,
        0 <= i < keys.len(),
        records[keys[i]].config.name != candidate,
    ensures
        registered_scripts(records[keys[i]], network) is Ok,
        !scripts_meet(registered_scripts(records[keys[i]], network)->Ok_0, texts),
    decreases keys.len(),
{
    if i > 0 {
        assert(keys.drop_first()[i - 1] == keys[i]);
        scripts_apart_among(
            candidate,
            texts,
            records,
            keys.drop_first(),
            network,
            i - 1,
        );
    }
}

/// Scripts that were not refused are watched by no other descriptor.
pub proof fn accepted_scripts_are_apart(
    candidate: Seq<char>,
    scripts: Seq<ScriptModel>,
    records: Map<Seq<char>, RecordModel>,
    network: Seq<char>,
    other: Seq<char>,
)
    requires
        overlap_refusal(candidate, scripts, records, network) is None,
        records.dom().finite(),
        records.contains_key(other),
        records[other].config.name != candidate,
    ensures
        registered_scripts(records[other], network) is Ok,
        are_apart(scripts, registered_scripts(records[other], network)->Ok_0),
{
    let keys = sorted_keys(records.dom());
    crate::ordered::sorted_keys_of(records.dom());
    assert(keys.to_set().contains(other));
    let n = choose|n: int| 0 <= n < keys.len() && keys[n] == other;
    scripts_apart_among(candidate, script_texts(scripts), records, keys, network, n);
    let watched = registered_scripts(records[other], network)->Ok_0;
    assert forall|i: int, j: int| 0 <= i < scripts.len() && 0 <= j < watched.len() implies (
    #[trigger] scripts[i]).scriptpubkey != (#[trigger] watched[j]).scriptpubkey by {
        if scripts[i].scriptpubkey == watched[j].scriptpubkey {
            let texts = scripts.map_values(|s: ScriptModel| s.scriptpubkey);
            assert(texts[i] == watched[j].scriptpubkey);
            assert(texts.contains(watched[j].scriptpubkey));
            assert(script_texts(scripts).contains(watched[j].scriptpubkey));
        }
    }
}

/// Records that are watched as far have the same scripts.
proof fn same_ends_same_scripts(a: RecordModel, b: RecordModel, set: SetModel, count: nat)
    requires
        a.range_ends == b.range_ends,
        a.range_end == b.range_end,
    ensures
        watched_scripts_upto(a, set, count) == watched_scripts_upto(b, set, count),
    decreases count,
{
    if count > 0 {
        same_ends_same_scripts(a, b, set, (count - 1) as nat);
    }
}

/// A change of the lookahead is accepted only where no other descriptor
/// watches any of the scripts that it leads to.
pub proof fn changed_descriptor_is_apart(
    state: StateModel,
    record: RecordModel,
    set: SetModel,
    lookahead: u32,
    confirmations: u32,
    other: Seq<char>,
)
    requires
        reframed_apart(state, record, set, lookahead, confirmations) is Ok,
        state.inner.records.dom().finite(),
        state.inner.records.contains_key(other),
        state.inner.records[other].config.name != record.config.name,
    ensures
        ({
            let after = reframed_apart(state, record, set, lookahead, confirmations)->Ok_0;
            let mine = watched_scripts(after, set);
            let theirs = registered_scripts(state.inner.records[other], state.network);
            &&& mine is Ok
            &&& theirs is Ok
            &&& are_apart(mine->Ok_0, theirs->Ok_0)
        }),
{
    let after = reframed(record, set, lookahead, confirmations)->Ok_0;
    accepted_scripts_are_apart(
        after.config.name,
        watched_scripts(after, set)->Ok_0,
        state.inner.records,
        state.network,
        other,
    );
}

/// The outputs that a descriptor has are watched whatever its lookahead: a
/// change of it drops no watch of an output.
pub proof fn update_keeps_output_watches(
    state: StateModel,
    name: Seq<char>,
    lookahead: Option<u32>,
    confirmations: Option<u32>,
    scripts: Seq<ScriptModel>,
    key: Seq<char>,
)
    requires
        update_record(state, name, lookahead, confirmations) is Ok,
        state.inner.records[name].utxos.contains_key(key),
    ensures
        expected_set(
            update_record(state, name, lookahead, confirmations)->Ok_0.1,
            scripts,
        ).contains(
            output_watch(
                state.inner.records[name].config.name,
                state.inner.records[name].utxos[key].outpoint,
            ),
        ),
{
    let after = update_record(state, name, lookahead, confirmations)->Ok_0.1;
    crate::lifecycle::update_keeps_what_was_found(state, name, lookahead, confirmations);
    assert(after.utxos.contains_key(key));
}

/// A change of the confirmation depth applies to the movements that are
/// pending.
pub proof fn depth_applies_to_pending_movements(
    state: StateModel,
    name: Seq<char>,
    lookahead: Option<u32>,
    confirmations: u32,
    tip_height: u32,
)
    requires
        update_record(state, name, lookahead, Some(confirmations)) is Ok,
    ensures
        due_movements(
            update_record(state, name, lookahead, Some(confirmations))->Ok_0.1,
            tip_height,
        ) == mature_ids(
            sorted_values(state.inner.records[name].pending_movements),
            confirmations,
            tip_height,
        ),
{
    crate::lifecycle::update_keeps_what_was_found(state, name, lookahead, Some(confirmations));
    crate::lifecycle::update_gives_what_was_asked(state, name, lookahead, Some(confirmations));
}

/// A registration is accepted only where no other descriptor watches any of
/// the scripts that its scan examines.
pub proof fn registered_descriptor_is_apart(
    state: StateModel,
    config: ConfigModel,
    other: Seq<char>,
)
    requires
        registration(state, config) is Ok,
        state.inner.records.dom().finite(),
        state.inner.records.contains_key(other),
        state.inner.records[other].config.name != config.name,
    ensures
        ({
            let mine = registration(state, config)->Ok_0.1;
            let theirs = registered_scripts(state.inner.records[other], state.network);
            &&& theirs is Ok
            &&& are_apart(mine, theirs->Ok_0)
        }),
{
    accepted_scripts_are_apart(
        config.name,
        registration(state, config)->Ok_0.1,
        state.inner.records,
        state.network,
        other,
    );
}

/// The descriptor, its birth and its name never change: not by an update, a
/// rescan, a deposit or an address that is given out.
pub proof fn descriptor_is_immutable(
    state: StateModel,
    name: Seq<char>,
    lookahead: Option<u32>,
    confirmations: Option<u32>,
    start_block: Option<u32>,
    branch: u32,
    index: u32,
    output: ObservedModel,
    blockheight: u32,
    timestamp: u64,
    annotation: Option<Seq<char>>,
)
    requires
        state.inner.records.contains_key(name),
    ensures
        ({
            let before = state.inner.records[name].config;
            &&& update_record(state, name, lookahead, confirmations) matches Ok((_, after))
                ==> same_descriptor(after.config, before)
            &&& rescan_record(state, name, start_block, lookahead) matches Ok(after)
                ==> same_descriptor(after.config, before)
            &&& deposit_recorded(
                state,
                name,
                branch,
                index,
                output,
                blockheight,
                timestamp,
                annotation,
            ) matches Ok((after, _)) ==> same_descriptor(after.config, before)
            &&& extension(state, name, branch, index) matches Ok(after) ==> same_descriptor(
                after.config,
                before,
            )
        }),
{
}

/// Two configurations are of the same descriptor.
pub open spec fn same_descriptor(a: ConfigModel, b: ConfigModel) -> bool {
    a.name == b.name && a.descriptor == b.descriptor && a.birthheight == b.birthheight
}

/// Moving cursors beyond addresses lowers none, and leaves each beyond the
/// addresses of its branch.
proof fn moved_cursors_reach(
    cursors: Map<u32, u32>,
    set: SetModel,
    name: Seq<char>,
    addresses: Seq<IssuedModel>,
    count: nat,
    network: Seq<char>,
    i: int,
)
    requires
        moved_cursors(cursors, set, name, addresses, count, network) is Ok,
        0 <= i < count <= addresses.len(),
    ensures
        ({
            let moved = moved_cursors(cursors, set, name, addresses, count, network)->Ok_0;
            &&& stored_address_fault(set, name, addresses[i], network) is None
            &&& moved.contains_key(addresses[i].branch)
            &&& moved[addresses[i].branch] >= addresses[i].index + 1
        }),
    decreases count,
{
    if i < count - 1 {
        moved_cursors_reach(cursors, set, name, addresses, (count - 1) as nat, network, i);
    }
}

/// Cursors that are beyond addresses stay when they are moved beyond them.
proof fn moved_cursors_stay(
    cursors: Map<u32, u32>,
    set: SetModel,
    name: Seq<char>,
    addresses: Seq<IssuedModel>,
    count: nat,
    network: Seq<char>,
)
    requires
        count <= addresses.len(),
        forall|i: int|
            0 <= i < count ==> stored_address_fault(
                set,
                name,
                #[trigger] addresses[i],
                network,
            ) is None && cursors.contains_key(addresses[i].branch) && cursors[addresses[i].branch]
                >= addresses[i].index + 1,
    ensures
        moved_cursors(cursors, set, name, addresses, count, network) == Ok::<
            Map<u32, u32>,
            RefusalModel,
        >(cursors),
    decreases count,
{
    if count > 0 {
        moved_cursors_stay(cursors, set, name, addresses, (count - 1) as nat, network);
        let address = addresses[count - 1];
        let next = (address.index + 1) as u32;
        assert(stored_address_fault(set, name, address, network) is None);
        assert(end_set(cursors, address.branch, next, true) =~= cursors);
    }
}

/// Ends that reach as far as a lookahead asks stay when they are raised.
proof fn reached_ends_stay(record: RecordModel, count: nat, lookahead: u32)
    requires
        count <= u32::MAX,
        forall|b: u32|
            b < count ==> #[trigger] record.range_ends.contains_key(b) && desired_end(
                frontier(record, b),
                lookahead,
            ) is Ok && record.range_ends[b] >= desired_end(frontier(record, b), lookahead)->Ok_0,
    ensures
        desired_ends(record, count, lookahead, true) == Ok::<Map<u32, u32>, TrackerError>(
            record.range_ends,
        ),
    decreases count,
{
    if count > 0 {
        let less = (count - 1) as nat;
        let last = (count - 1) as u32;
        let ends = record.range_ends;
        assert(last < count);
        assert(ends.contains_key(last));
        let end = desired_end(frontier(record, last), lookahead)->Ok_0;
        reached_ends_stay(record, less, lookahead);
        assert(desired_ends(record, less, lookahead, true) == Ok::<Map<u32, u32>, TrackerError>(
            ends,
        ));
        if ends[last] == end {
            assert(ends.insert(last, end) =~= ends);
        }
        assert(end_set(ends, last, end, true) == ends);
    }
}

/// A record that was taken up again and stored is taken up as it is: a second
/// start changes nothing.
pub proof fn taken_up_record_stays(
    record: RecordModel,
    set: SetModel,
    addresses: Seq<IssuedModel>,
    network: Seq<char>,
)
    requires
        taken_up(record, set, addresses, network) is Ok,
        0 < set.branches <= u32::MAX,
    ensures
        ({
            let after = taken_up(record, set, addresses, network)->Ok_0;
            taken_up(after, set, addresses, network) == Ok::<RecordModel, RefusalModel>(after)
        }),
{
    let branches = set.branches;
    let lookahead = record.config.lookahead;
    let prepared = with_used_indexes(with_branch_ends(record, branches));
    let name = record.config.name;
    let cursors = moved_cursors(
        prepared.next_indexes,
        set,
        name,
        addresses,
        addresses.len(),
        network,
    )->Ok_0;
    let moved = RecordModel { next_indexes: cursors, ..prepared };
    let after = taken_up(record, set, addresses, network)->Ok_0;
    assert forall|b: u32| b < branches implies #[trigger] after.range_ends.contains_key(b)
        && desired_end(frontier(after, b), lookahead) is Ok && after.range_ends[b] >= desired_end(
        frontier(after, b),
        lookahead,
    )->Ok_0 by {
        desired_end_is_reached(moved, branches, lookahead, true, b);
        assert(frontier(after, b) == frontier(moved, b));
    }
    assert(after.range_ends.contains_key(0));
    assert(!has_none(after.range_ends));
    assert(with_branch_ends(after, branches) == after);
    if has_none(after.last_used_indexes) {
        let used = used_indexes(sorted_values(record.utxos));
        assert(after.utxos == record.utxos);
        assert(record.last_used_index is Some && has_none(used) ==> used.insert(
            0,
            record.last_used_index->Some_0,
        ).contains_key(0));
        assert(has_none(used));
        crate::frontier::greatest_is(after.last_used_indexes, None);
        assert(after.last_used_index is None);
        assert(with_used_indexes(after) == after);
    }
    assert(with_used_indexes(after) == after);
    assert forall|i: int| 0 <= i < addresses.len() implies stored_address_fault(
        set,
        name,
        #[trigger] addresses[i],
        network,
    ) is None && cursors.contains_key(addresses[i].branch) && cursors[addresses[i].branch]
        >= addresses[i].index + 1 by {
        moved_cursors_reach(
            prepared.next_indexes,
            set,
            name,
            addresses,
            addresses.len(),
            network,
            i,
        );
    }
    moved_cursors_stay(cursors, set, name, addresses, addresses.len(), network);
    reached_ends_stay(after, branches, lookahead);
}

/// The one end and the one last used index of a record are the greatest of its
/// branches.
pub open spec fn aggregates_match(record: RecordModel) -> bool {
    &&& is_greatest(record.range_ends, Some(record.range_end))
    &&& is_greatest(record.last_used_indexes, record.last_used_index)
}

/// A deposit keeps the one end and the one last used index of a record the
/// greatest of its branches.
pub proof fn deposit_keeps_aggregates(
    record: RecordModel,
    set: SetModel,
    branch: u32,
    index: u32,
)
    requires
        frontier_moved(record, set, branch, index) is Ok,
        0 < set.branches <= u32::MAX,
        aggregates_match(record),
        forall|b: u32| b < set.branches ==> #[trigger] record.range_ends.contains_key(b),
    ensures
        ({
            let moved = frontier_moved(record, set, branch, index)->Ok_0.0;
            &&& aggregates_match(moved)
            &&& refreshed(moved) == moved
            &&& forall|b: u32|
                b < set.branches ==> #[trigger] moved.range_ends.contains_key(b)
        }),
{
    let end = desired_end(Some(index), record.config.lookahead)->Ok_0;
    let moved = frontier_moved(record, set, branch, index)->Ok_0.0;
    let ends = moved.range_ends;
    grown_branches_reach(record, set, end, set.branches);
    assert forall|b: u32| b < set.branches implies #[trigger] ends.contains_key(b) by {
        assert(record.range_ends.contains_key(b));
    }
    assert forall|k: u32| #[trigger] ends.contains_key(k) implies ends[k] <= moved.range_end by {
        if !(k < set.branches && watched_end(record, k) < end) {
            assert(record.range_ends.contains_key(k));
        }
    }
    let top = choose|k: u32| #[trigger]
        record.range_ends.contains_key(k) && record.range_ends[k] == record.range_end;
    if end > record.range_end {
        assert(record.range_ends.contains_key(0));
        assert(watched_end(record, 0) < end);
        assert(ends.contains_key(0) && ends[0] == moved.range_end);
    } else {
        assert(record.range_ends.contains_key(top));
        assert(watched_end(record, top) == record.range_end);
        assert(ends == grown_branches(record, set, end, set.branches)->Ok_0.0);
        assert(ends.contains_key(top) <==> record.range_ends.contains_key(top));
        assert(ends[top] == record.range_ends[top]);
    }
    assert(is_greatest(ends, Some(moved.range_end)));
    let used = moved.last_used_indexes;
    let last = moved.last_used_index->Some_0;
    assert forall|k: u32| #[trigger] used.contains_key(k) implies used[k] <= last by {
        if k != branch {
            assert(record.last_used_indexes.contains_key(k));
        } else if record.last_used_indexes.contains_key(branch) {
            assert(record.last_used_indexes[branch] <= record.last_used_index->Some_0);
        }
    }
    if record.last_used_index is Some && record.last_used_index->Some_0 >= index {
        let most = choose|k: u32| #[trigger]
            record.last_used_indexes.contains_key(k) && record.last_used_indexes[k]
                == record.last_used_index->Some_0;
        assert(used.contains_key(most) && used[most] == last);
    } else {
        if record.last_used_indexes.contains_key(branch) {
            assert(record.last_used_indexes[branch] <= record.last_used_index->Some_0);
        }
        assert(used.contains_key(branch) && used[branch] == last);
    }
    assert(is_greatest(used, Some(last)));
    crate::frontier::greatest_is(ends, Some(moved.range_end));
    crate::frontier::greatest_is(used, Some(last));
}

/// What is begun is marked on the record that is stored first: a registration,
/// a rescan, a change of the lookahead or the depth, an address that is given
/// out and a use of an index that makes a descriptor grow leave it syncing. The
/// record of a rescan names the start, which is not before the birth.
pub proof fn begun_work_is_marked(
    state: StateModel,
    config: ConfigModel,
    name: Seq<char>,
    start: Option<u32>,
    lookahead: Option<u32>,
    confirmations: Option<u32>,
    record: RecordModel,
    set: SetModel,
    branch: u32,
    index: u32,
)
    ensures
        registration(state, config) matches Ok((begun, _)) ==> begun.status
            == DescriptorStatus::Syncing && !begun.initial_scan_complete,
        rescan_record(state, name, start, lookahead) matches Ok(begun) ==> begun.status
            == DescriptorStatus::Syncing && begun.pending_rescan is Some
            && begun.pending_rescan->Some_0.start_block >= begun.config.birthheight,
        update_record(state, name, lookahead, confirmations) matches Ok((step, begun)) ==> step
            == UpdateStep::Unchanged || begun.status == DescriptorStatus::Syncing,
        extension(state, name, branch, index) matches Ok(begun) ==> begun.status
            == DescriptorStatus::Syncing,
        frontier_moved(record, set, branch, index) matches Ok((begun, added)) ==> added.len() == 0
            || begun.status == DescriptorStatus::Syncing,
{
}

/// Work that was interrupted is taken up: whatever watches are there, a
/// syncing descriptor has its whole namespace scanned again from its birth.
pub proof fn interrupted_work_is_scanned_again(
    record: RecordModel,
    expected: Set<WatchModel>,
    current: Set<WatchModel>,
)
    requires
        record.status == DescriptorStatus::Syncing,
    ensures
        watch_plan(record, expected, current, true).rescan == Some(
            prefix_rescan_call(owner_prefix_text(record.config.name), record.config.birthheight),
        ),
{
}

/// No watch that a known descriptor must have is taken for an orphan.
pub proof fn expected_watch_is_no_orphan(
    record: RecordModel,
    scripts: Seq<ScriptModel>,
    watch: WatchModel,
    names: Seq<Seq<char>>,
)
    requires
        expected_set(record, scripts).contains(watch),
        names.contains(record.config.name),
    ensures
        is_owned(watch.owner(), names),
{
    expected_watches_carry_the_prefix(record, scripts, watch);
    let i = names.index_of(record.config.name);
    assert(begins_with(watch.owner(), owner_prefix_text(names[i])));
}

/// Every watch that belongs to no known descriptor is removed.
pub proof fn orphan_is_removed(watches: Seq<WatchModel>, names: Seq<Seq<char>>, i: int)
    requires
        0 <= i < watches.len(),
        !is_owned(watches[i].owner(), names),
    ensures
        orphan_removals(watches, names).contains(removal_of(watches[i])),
    decreases watches.len(),
{
    let rest = orphan_removals(watches.drop_last(), names);
    let all = orphan_removals(watches, names);
    if i == watches.len() - 1 {
        assert(all.last() == removal_of(watches[i]));
    } else {
        assert(watches.drop_last()[i] == watches[i]);
        orphan_is_removed(watches.drop_last(), names, i);
        let j = rest.index_of(removal_of(watches[i]));
        assert(all[j] == rest[j]);
    }
}

/// What was stored before is replaced at the generation that was read, so that
/// a change by another is noticed, and what was not is created.
pub proof fn generation_guards_the_store(
    key: Seq<Seq<char>>,
    data: Seq<char>,
    generation: Option<u64>,
)
    ensures
        ({
            let stored = JsonModel::Object(store_params(key, data, generation));
            match generation {
                Some(read) => stored.text_field("mode"@) == Some("must-replace"@)
                    && stored.number_field("generation"@) == Some(read),
                None => stored.text_field("mode"@) == Some("must-create"@),
            }
        }),
        generation matches Some(read) ==> JsonModel::Object(
            delete_params(key, generation),
        ).number_field("generation"@) == Some(read),
{
    reveal_strlit("key");
    reveal_strlit("string");
    reveal_strlit("mode");
    reveal_strlit("generation");
    assert("key"@.len() == 3 && "string"@.len() == 6);
    assert("mode"@.len() == 4 && "generation"@.len() == 10);
    let stored = store_params(key, data, generation);
    named_field_at(stored, 2);
    if generation is Some {
        named_field_at(stored, 3);
        named_field_at(delete_params(key, generation), 1);
    }
}

/// Each record and each issued address has an entry of its own.
pub proof fn stored_keys_are_told_apart(
    name: Seq<char>,
    other: Seq<char>,
    branch: u32,
    index: u32,
    other_branch: u32,
    other_index: u32,
)
    ensures
        record_key(name) == record_key(other) ==> name == other,
        address_key(name, branch, index) == address_key(other, other_branch, other_index) ==> name
            == other && branch == other_branch && index == other_index,
        record_key(name) != address_key(other, branch, index),
{
    if record_key(name) == record_key(other) {
        assert(record_key(name)[2] == record_key(other)[2]);
    }
    let key = address_key(name, branch, index);
    let second = address_key(other, other_branch, other_index);
    if key == second {
        assert(key[2] == second[2] && key[3] == second[3] && key[4] == second[4]);
        decimal_is_digits(branch as nat);
        decimal_is_digits(other_branch as nat);
        decimal_is_digits(index as nat);
        decimal_is_digits(other_index as nat);
    }
    assert(record_key(name).len() == 3 && address_key(other, branch, index).len() == 5);
}

/// Scripts that no record of a row of keys watches are not refused.
proof fn apart_scripts_pass(
    candidate: Seq<char>,
    texts: Set<Seq<char>>,
    records: Map<Seq<char>, RecordModel>,
    keys: Seq<Seq<char>>,
    network: Seq<char>,
)
    requires
        forall|i: int|
            0 <= i < keys.len() ==> records[#[trigger] keys[i]].config.name == candidate || (
            registered_scripts(records[keys[i]], network) is Ok && !scripts_meet(
                registered_scripts(records[keys[i]], network)->Ok_0,
                texts,
            )),
    ensures
        overlap_among(candidate, texts, records, keys, network) is None,
    decreases keys.len(),
{
    if keys.len() > 0 {
        let rest = keys.drop_first();
        assert forall|i: int| 0 <= i < rest.len() implies records[#[trigger] rest[i]].config.name
            == candidate || (registered_scripts(records[rest[i]], network) is Ok && !scripts_meet(
            registered_scripts(records[rest[i]], network)->Ok_0,
            texts,
        )) by {
            assert(rest[i] == keys[i + 1]);
        }
        apart_scripts_pass(candidate, texts, records, rest, network);
        assert(records[keys[0]].config.name == candidate || registered_scripts(
            records[keys[0]],
            network,
        ) is Ok);
    }
}

/// A registration that was interrupted can be resumed with the same request:
/// once its record is stored, whatever else was noted on it, the request is
/// accepted again and goes on with that record and the same scripts.
pub proof fn begun_registration_is_resumable(
    state: StateModel,
    config: ConfigModel,
    stored: RecordModel,
)
    requires
        registration(state, config) is Ok,
        state.inner.records.dom().finite(),
        resumes_registration(stored, config),
    ensures
        ({
            let later = StateModel {
                inner: TrackerModel {
                    records: state.inner.records.insert(config.name, stored),
                    ..state.inner
                },
                ..state
            };
            registration(later, config) == Ok::<(RecordModel, Seq<ScriptModel>), RefusalModel>(
                (stored, registration(state, config)->Ok_0.1),
            )
        }),
        resumes_registration(registration(state, config)->Ok_0.0, config),
{
    let scripts = registration(state, config)->Ok_0.1;
    let texts = script_texts(scripts);
    let before = state.inner.records;
    let after = before.insert(config.name, stored);
    let known = sorted_keys(before.dom());
    let keys = sorted_keys(after.dom());
    crate::ordered::sorted_keys_of(before.dom());
    crate::ordered::sorted_keys_of(after.dom());
    assert forall|i: int| 0 <= i < keys.len() implies after[#[trigger] keys[i]].config.name
        == config.name || (registered_scripts(after[keys[i]], state.network) is Ok
        && !scripts_meet(registered_scripts(after[keys[i]], state.network)->Ok_0, texts)) by {
        let key = keys[i];
        if key != config.name {
            assert(keys.contains(key));
            assert(keys.to_set().contains(key));
            assert(known.to_set().contains(key));
            let n = choose|n: int| 0 <= n < known.len() && known[n] == key;
            if before[key].config.name != config.name {
                scripts_apart_among(config.name, texts, before, known, state.network, n);
            }
        }
    }
    apart_scripts_pass(config.name, texts, after, keys, state.network);
}

/// A descriptor grows only by scripts that no other descriptor watches: by a
/// deposit, and by an address that is given out.
pub proof fn grown_descriptor_is_apart(
    state: StateModel,
    name: Seq<char>,
    branch: u32,
    index: u32,
    output: ObservedModel,
    blockheight: u32,
    timestamp: u64,
    annotation: Option<Seq<char>>,
    other: Seq<char>,
)
    requires
        state.inner.records.dom().finite(),
        state.inner.records.contains_key(other),
        state.inner.records.contains_key(name),
        are_named(state.inner.records),
        other != name,
    ensures
        ({
            let theirs = registered_scripts(state.inner.records[other], state.network);
            &&& deposit_recorded(
                state,
                name,
                branch,
                index,
                output,
                blockheight,
                timestamp,
                annotation,
            ) matches Ok((_, added)) ==> theirs is Ok && are_apart(added, theirs->Ok_0)
            &&& extension(state, name, branch, index) matches Ok(extended) ==> theirs is Ok
                && registered_scripts(extended, state.network) is Ok && are_apart(
                registered_scripts(extended, state.network)->Ok_0,
                theirs->Ok_0,
            )
        }),
{
    let records = state.inner.records;
    match deposit_recorded(
        state,
        name,
        branch,
        index,
        output,
        blockheight,
        timestamp,
        annotation,
    ) {
        Ok((_, added)) => {
            accepted_scripts_are_apart(name, added, records, state.network, other);
        },
        Err(_) => {},
    }
    match extension(state, name, branch, index) {
        Ok(extended) => {
            let set = config_set(records[name].config, state.network)->Ok_0;
            let moved = advanced(records[name], branch, index)->Ok_0;
            same_ends_same_scripts(extended, moved, set, set.branches);
            accepted_scripts_are_apart(
                name,
                watched_scripts(moved, set)->Ok_0,
                records,
                state.network,
                other,
            );
        },
        Err(_) => {},
    }
}

/// Each record stands under its own name in the first state, and every
/// operation on a state keeps it so: to put, to remove and to report on a
/// record, to put addresses, to begin and to end a scan, and to load what was
/// stored.
pub proof fn records_stay_under_their_names(
    state: StateModel,
    record: RecordModel,
    name: Seq<char>,
    text: Seq<char>,
    message: Seq<char>,
    flag: bool,
    height: u32,
    now: u64,
    book: Seq<IssuedModel>,
    restored: Map<Seq<char>, RecordModel>,
    books: Map<Seq<char>, Seq<IssuedModel>>,
)
    requires
        are_named(state.inner.records),
        are_named(restored),
    ensures
        are_named(first_state(name, text).inner.records),
        are_named(record_put(state, record).inner.records),
        are_named(record_removed(state, name).inner.records),
        are_named(failure_reported(state.inner, name, text, message, flag, now).records),
        are_named(reorg_counted(state).inner.records),
        are_named(reorg_reported(state, name, height, flag, now).inner.records),
        are_named(book_put(state, name, book).inner.records),
        are_named(scan_begun(state, name, text).inner.records),
        are_named(scan_ended(state, name, text).inner.records),
        are_named(record_added(restored, record)),
        are_named(loaded(state, restored, books).inner.records),
{
}

/// What taking back movements leaves in an output.
proof fn movements_reverted_values(
    record: RecordModel,
    movements: Seq<MovementModel>,
    count: nat,
    key: Seq<char>,
)
    requires
        count <= movements.len(),
    ensures
        ({
            let before = record.utxos;
            let after = movements_reverted(record, movements, count);
            &&& after.utxos.contains_key(key) ==> before.contains_key(key) && after.utxos[key]
                == (if names_output(movements, count, MovementKind::Spend, key) {
                UtxoModel { spent_by: None, spent_height: None, ..before[key] }
            } else {
                before[key]
            })
            &&& after.config == record.config
            &&& after.status == record.status
            &&& after.external_outpoints == record.external_outpoints
            &&& after.next_indexes == record.next_indexes
            &&& after.range_ends == record.range_ends
            &&& after.range_end == record.range_end
            &&& after.last_used_indexes == record.last_used_indexes
            &&& after.last_used_index == record.last_used_index
            &&& after.initial_scan_complete == record.initial_scan_complete
            &&& after.pending_rescan == record.pending_rescan
            &&& after.incident == record.incident
            &&& after.generation == record.generation
        }),
    decreases count,
{
    if count > 0 {
        let fewer = (count - 1) as nat;
        movements_reverted_values(record, movements, fewer, key);
        let last = movements[count - 1];
        let spend = MovementKind::Spend;
        if names_output(movements, fewer, spend, key) {
            let j = choose|j: int|
                0 <= j < fewer && (#[trigger] movements[j]).kind == spend && movements[j].outpoint
                    == key;
            assert(0 <= j < count && movements[j].kind == spend);
        }
        if names_output(movements, count, spend, key) {
            let j = choose|j: int|
                0 <= j < count && (#[trigger] movements[j]).kind == spend && movements[j].outpoint
                    == key;
            assert(j < fewer ==> movements[j].kind == spend);
        } else {
            assert(!(last.kind == spend && last.outpoint == key));
        }
    }
}

/// A block that is reverted takes with it exactly the outputs that it had
/// brought. Every output that is kept is unspent where it was spent in the block,
/// whether or not Bookkeeper was told of the spend, and is otherwise as it was.
/// The movements of the block wait no longer, and all others wait on.
pub proof fn reverted_block_is_undone(record: RecordModel, height: u32, key: Seq<char>)
    requires
        is_keyed(record),
    ensures
        ({
            let after = reverted(record, height).record;
            let before = record.utxos[key];
            let kept = after.utxos[key];
            &&& after.utxos.contains_key(key) <==> record.utxos.contains_key(key)
                && before.deposit_height != height && !waits(
                record,
                MovementKind::Deposit,
                key,
                height,
            )
            &&& after.utxos.contains_key(key) ==> {
                &&& before.spent_height == Some(height) || waits(
                    record,
                    MovementKind::Spend,
                    key,
                    height,
                ) ==> kept.spent_by is None && kept.spent_height is None
                &&& before.spent_height != Some(height) && !waits(
                    record,
                    MovementKind::Spend,
                    key,
                    height,
                ) ==> kept.spent_by == before.spent_by && kept.spent_height
                    == before.spent_height
                &&& kept.outpoint == before.outpoint
                &&& kept.amount_msat == before.amount_msat
                &&& kept.branch == before.branch
                &&& kept.derivation_index == before.derivation_index
                &&& kept.deposit_height == before.deposit_height
                &&& kept.annotation == before.annotation
            }
            &&& after.pending_movements.contains_key(key) <==> record.pending_movements.contains_key(
                key,
            ) && record.pending_movements[key].blockheight != height
            &&& after.pending_movements.contains_key(key) ==> after.pending_movements[key]
                == record.pending_movements[key]
            &&& after.external_outpoints == record.external_outpoints
            &&& after.next_indexes == record.next_indexes
            &&& after.range_ends == record.range_ends
            &&& after.range_end == record.range_end
            &&& after.initial_scan_complete == record.initial_scan_complete
            &&& after.pending_rescan == record.pending_rescan
            &&& after.incident == record.incident
            &&& after.generation == record.generation
        }),
{
    let keys = sorted_keys(record.pending_movements.dom());
    let all = sorted_values(record.pending_movements);
    let pending = movements_at(all, height);
    crate::ordered::sorted_keys_of(record.pending_movements.dom());
    movements_reverted_keep(record, pending, pending.len());
    movements_reverted_values(record, pending, pending.len(), key);
    movements_reverted_outputs(record, pending, pending.len(), height, key);
    waiting_is_named(record, MovementKind::Deposit, key, height);
    waiting_is_named(record, MovementKind::Spend, key, height);
    let taken_back = movements_reverted(record, pending, pending.len());
    if record.pending_movements.contains_key(key) {
        assert(keys.to_set().contains(key));
        let i = choose|i: int| 0 <= i < keys.len() && keys[i] == key;
        assert(all[i] == record.pending_movements[key]);
        if record.pending_movements[key].blockheight == height {
            movements_at_hold(all, height, i);
            let n = choose|n: int| 0 <= n < pending.len() && pending[n] == all[i];
            assert(pending[n].id == key);
        } else {
            assert forall|n: int| 0 <= n < pending.len() implies (#[trigger] pending[n]).id
                != key by {
                movements_at_only(all, height, n);
                let m = choose|m: int| 0 <= m < all.len() && all[m] == pending[n];
                assert(keys.contains(keys[m]));
                assert(keys.to_set().contains(keys[m]));
                assert(record.pending_movements[keys[m]] == pending[n]);
            }
        }
    }
    let places = sorted_keys(taken_back.utxos.dom());
    let outputs = sorted_values(taken_back.utxos);
    let received = received_at(outputs, height);
    crate::ordered::sorted_keys_of(taken_back.utxos.dom());
    outputs_removed_keep(taken_back.utxos, received, received.len());
    let kept = outputs_removed(taken_back.utxos, received, received.len());
    if taken_back.utxos.contains_key(key) {
        assert(places.to_set().contains(key));
        let i = choose|i: int| 0 <= i < places.len() && places[i] == key;
        assert(outputs[i] == taken_back.utxos[key]);
        if taken_back.utxos[key].deposit_height == height {
            received_at_hold(outputs, height, i);
            let n = choose|n: int| 0 <= n < received.len() && received[n] == outputs[i].outpoint;
            assert(received[n] == key);
        } else {
            assert forall|n: int| 0 <= n < received.len() implies #[trigger] received[n]
                != key by {
                let m = received_at_only(outputs, height, n);
                assert(places.contains(places[m]));
                assert(places.to_set().contains(places[m]));
                assert(taken_back.utxos[places[m]] == outputs[m]);
            }
        }
    }
    let cleared = spends_cleared(kept, height);
    assert(cleared.contains_key(key) <==> kept.contains_key(key));
}

/// An output whose spend was in a block that was reverted can be spent again: a
/// spend of it, by whatever transaction, is new.
pub proof fn reverted_spend_can_come_again(
    state: StateModel,
    record: RecordModel,
    height: u32,
    name: Seq<char>,
    outpoint: Seq<char>,
    spending_txid: Seq<char>,
)
    requires
        is_keyed(record),
        record.utxos.contains_key(outpoint),
        record.utxos[outpoint].spent_height == Some(height),
        record.utxos[outpoint].deposit_height != height,
        !waits(record, MovementKind::Deposit, outpoint, height),
        record.status != DescriptorStatus::Deleting,
        state.inner.records.contains_key(name),
        state.inner.records[name] == reverted(record, height).record,
    ensures
        spend_step(state, name, outpoint, spending_txid) == Ok::<MatchStep, RefusalModel>(
            MatchStep::New,
        ),
{
    reverted_block_is_undone(record, height, outpoint);
    reverted_block_leaves_nothing(record, height);
}

/// The outpoints of the deposits of a row hold each of them and no others.
proof fn deposited_are_named(movements: Seq<MovementModel>, outpoint: Seq<char>)
    ensures
        deposited(movements).contains(outpoint) <==> names_output(
            movements,
            movements.len(),
            MovementKind::Deposit,
            outpoint,
        ),
    decreases movements.len(),
{
    let deposit = MovementKind::Deposit;
    if movements.len() > 0 {
        let rest = movements.drop_last();
        let last = movements.last();
        deposited_are_named(rest, outpoint);
        crate::ordered::push_contains(deposited(rest), last.outpoint, outpoint);
        if names_output(rest, rest.len(), deposit, outpoint) {
            let j = choose|j: int|
                0 <= j < rest.len() && (#[trigger] rest[j]).kind == deposit && rest[j].outpoint
                    == outpoint;
            assert(movements[j].kind == deposit);
        }
        if names_output(movements, movements.len(), deposit, outpoint) {
            let j = choose|j: int|
                0 <= j < movements.len() && (#[trigger] movements[j]).kind == deposit
                    && movements[j].outpoint == outpoint;
            if j < rest.len() {
                assert(rest[j].kind == deposit);
            }
        }
        if last.kind == deposit && last.outpoint == outpoint {
            assert(movements[movements.len() - 1].kind == deposit);
        }
    }
}

/// The watch of every output that a reverted block takes with it is removed, and
/// no watch of an output that is kept. Whether anything changed is whether the
/// record had anything of the block.
pub proof fn reverted_outputs_are_unwatched(record: RecordModel, height: u32, key: Seq<char>)
    requires
        is_keyed(record),
    ensures
        ({
            let done = reverted(record, height);
            &&& record.utxos.contains_key(key) && !done.record.utxos.contains_key(key)
                ==> done.calls.contains(removal_of(output_watch(record.config.name, key)))
            &&& forall|k: int|
                0 <= k < done.calls.len() ==> exists|o: Seq<char>|
                    (#[trigger] done.calls[k]) == removal_of(
                        #[trigger] output_watch(record.config.name, o),
                    ) && !done.record.utxos.contains_key(o)
            &&& done.changed <==> !is_clear_of(record, height)
        }),
{
    let keys = sorted_keys(record.pending_movements.dom());
    let all = sorted_values(record.pending_movements);
    let pending = movements_at(all, height);
    crate::ordered::sorted_keys_of(record.pending_movements.dom());
    movements_reverted_keep(record, pending, pending.len());
    let taken_back = movements_reverted(record, pending, pending.len());
    let places = sorted_keys(taken_back.utxos.dom());
    let outputs = sorted_values(taken_back.utxos);
    let received = received_at(outputs, height);
    crate::ordered::sorted_keys_of(taken_back.utxos.dom());
    outputs_removed_keep(taken_back.utxos, received, received.len());
    let kept = outputs_removed(taken_back.utxos, received, received.len());
    let name = record.config.name;
    let removed = deposited(pending) + received;
    let done = reverted(record, height);
    assert(done.calls.len() == removed.len());
    assert forall|o: Seq<char>| #[trigger] removed.contains(
        o,
    ) implies !done.record.utxos.contains_key(o) by {
        let k = choose|k: int| 0 <= k < removed.len() && removed[k] == o;
        movements_reverted_outputs(record, pending, pending.len(), height, o);
        if k < deposited(pending).len() {
            assert(deposited(pending)[k] == o);
            assert(deposited(pending).contains(o));
            deposited_are_named(pending, o);
        } else {
            assert(received[k - deposited(pending).len()] == o);
        }
        assert(!kept.contains_key(o));
    }
    assert forall|k: int| 0 <= k < done.calls.len() implies exists|o: Seq<char>|
        (#[trigger] done.calls[k]) == removal_of(#[trigger] output_watch(name, o))
            && !done.record.utxos.contains_key(o) by {
        assert(removed.contains(removed[k]));
        assert(done.calls[k] == removal_of(output_watch(name, removed[k])));
    }
    if record.utxos.contains_key(key) && !done.record.utxos.contains_key(key) {
        assert(!kept.contains_key(key));
        movements_reverted_outputs(record, pending, pending.len(), height, key);
        if taken_back.utxos.contains_key(key) {
            let n = choose|n: int| 0 <= n < received.len() && received[n] == key;
            assert(removed[deposited(pending).len() + n] == key);
        } else {
            deposited_are_named(pending, key);
            let n = choose|n: int| 0 <= n < deposited(pending).len() && deposited(pending)[n] == key;
            assert(removed[n] == key);
        }
        let m = choose|m: int| 0 <= m < removed.len() && removed[m] == key;
        assert(done.calls[m] == removal_of(output_watch(name, key)));
    }
    if is_clear_of(record, height) {
        crate::reorg::clear_record_is_kept(record, height);
    } else if exists|id: Seq<char>| #[trigger]
        record.pending_movements.contains_key(id) && record.pending_movements[id].blockheight
            == height {
        let id = choose|id: Seq<char>| #[trigger]
            record.pending_movements.contains_key(id) && record.pending_movements[id].blockheight
                == height;
        assert(keys.to_set().contains(id));
        let i = choose|i: int| 0 <= i < keys.len() && keys[i] == id;
        assert(all[i] == record.pending_movements[id]);
        movements_at_hold(all, height, i);
    } else {
        let o = choose|o: Seq<char>| #[trigger]
            record.utxos.contains_key(o) && (record.utxos[o].deposit_height == height
                || is_spent_at(record.utxos[o], height));
        assert(!waits(record, MovementKind::Deposit, o, height));
        assert(!waits(record, MovementKind::Spend, o, height));
        booked_movement_is_noticed(record, height);
        assert(is_booked_at(record, o, height));
    }
}

/// The scripts that a record watches are those of its own descriptor: on every
/// branch the one at each index below the end of the branch, and no other.
pub proof fn registered_scripts_are_those_of_the_descriptor(
    record: RecordModel,
    network: Seq<char>,
)
    requires
        registered_scripts(record, network) is Ok,
    ensures
        ({
            let scripts = registered_scripts(record, network)->Ok_0;
            let set = config_set(record.config, network)->Ok_0;
            &&& config_set(record.config, network) is Ok
            &&& forall|k: int|
                0 <= k < scripts.len() ==> is_script_of(
                    #[trigger] scripts[k],
                    record.config.descriptor,
                    scripts[k].branch,
                    scripts[k].index,
                ) && scripts[k].index < watched_end(record, scripts[k].branch)
            &&& forall|b: u32, i: u32|
                b < set.branches && i < watched_end(record, b) && (set.ranged || i == 0)
                    ==> has_script(scripts, b, i)
        }),
{
    accepted_configuration_is_sound(record.config, network);
    watched_scripts_are_whole(record, config_set(record.config, network)->Ok_0);
}

/// Scripts that are accepted beside other descriptors are the script of none of
/// them at an index that it watches.
pub proof fn accepted_scripts_are_of_no_other(
    candidate: Seq<char>,
    scripts: Seq<ScriptModel>,
    records: Map<Seq<char>, RecordModel>,
    network: Seq<char>,
    other: Seq<char>,
    branch: u32,
    index: u32,
    k: int,
)
    requires
        overlap_refusal(candidate, scripts, records, network) is None,
        records.dom().finite(),
        records.contains_key(other),
        records[other].config.name != candidate,
        branch < config_set(records[other].config, network)->Ok_0.branches,
        index < watched_end(records[other], branch),
        config_set(records[other].config, network)->Ok_0.ranged || index == 0,
        0 <= k < scripts.len(),
    ensures
        script_at(records[other].config.descriptor, branch, index) is Ok,
        scripts[k].scriptpubkey != hex_text(
            script_at(records[other].config.descriptor, branch, index)->Ok_0,
        ),
{
    accepted_scripts_are_apart(candidate, scripts, records, network, other);
    registered_scripts_are_those_of_the_descriptor(records[other], network);
    let watched = registered_scripts(records[other], network)->Ok_0;
    assert(has_script(watched, branch, index));
    let n = choose|n: int|
        0 <= n < watched.len() && (#[trigger] watched[n]).branch == branch && watched[n].index
            == index;
    assert(is_script_of(watched[n], records[other].config.descriptor, branch, index));
    assert(scripts[k].scriptpubkey != watched[n].scriptpubkey);
}

/// Scripts are accepted where every other descriptor can be derived and none of
/// them watches one of the scripts.
pub proof fn scripts_of_no_other_are_accepted(
    candidate: Seq<char>,
    scripts: Seq<ScriptModel>,
    records: Map<Seq<char>, RecordModel>,
    network: Seq<char>,
)
    requires
        records.dom().finite(),
        forall|other: Seq<char>| #[trigger]
            records.contains_key(other) && records[other].config.name != candidate
                ==> registered_scripts(records[other], network) is Ok && are_apart(
                scripts,
                registered_scripts(records[other], network)->Ok_0,
            ),
    ensures
        overlap_refusal(candidate, scripts, records, network) is None,
{
    let keys = sorted_keys(records.dom());
    let texts = script_texts(scripts);
    crate::ordered::sorted_keys_of(records.dom());
    assert forall|n: int| 0 <= n < keys.len() implies records[#[trigger] keys[n]].config.name
        == candidate || (registered_scripts(records[keys[n]], network) is Ok && !scripts_meet(
        registered_scripts(records[keys[n]], network)->Ok_0,
        texts,
    )) by {
        assert(keys.to_set().contains(keys[n]));
        assert(records.contains_key(keys[n]));
        if records[keys[n]].config.name != candidate {
            let watched = registered_scripts(records[keys[n]], network)->Ok_0;
            if scripts_meet(watched, texts) {
                let j = choose|j: int|
                    0 <= j < watched.len() && texts.contains((#[trigger] watched[j]).scriptpubkey);
                let row = scripts.map_values(|s: ScriptModel| s.scriptpubkey);
                assert(row.to_set().contains(watched[j].scriptpubkey));
                let i = choose|i: int| 0 <= i < row.len() && row[i] == watched[j].scriptpubkey;
                assert(scripts[i].scriptpubkey == watched[j].scriptpubkey);
            }
        }
    }
    apart_scripts_pass(candidate, texts, records, keys, network);
}

/// The ends that a lookahead asks for exist where each branch has room for them.
proof fn desired_ends_exist(record: RecordModel, count: nat, lookahead: u32, raise: bool)
    requires
        count <= u32::MAX,
        forall|b: u32|
            b < count ==> (match #[trigger] frontier(record, b) {
                Some(last) => last + 1,
                None => 0,
            }) + lookahead < 0x8000_0000,
    ensures
        desired_ends(record, count, lookahead, raise) is Ok,
    decreases count,
{
    if count > 0 {
        desired_ends_exist(record, (count - 1) as nat, lookahead, raise);
        let branch = (count - 1) as u32;
        assert((match frontier(record, branch) {
            Some(last) => last + 1,
            None => 0,
        }) + lookahead < 0x8000_0000);
        end_leaves_the_lookahead(frontier(record, branch), lookahead);
    }
}

/// A lookahead is accepted where each branch has room for it, the scripts that it
/// leads to can be derived, and no other descriptor watches one of them.
pub proof fn sound_lookahead_is_accepted(
    state: StateModel,
    record: RecordModel,
    set: SetModel,
    lookahead: u32,
    confirmations: u32,
    after: RecordModel,
)
    requires
        set.branches <= u32::MAX,
        state.inner.records.dom().finite(),
        forall|b: u32|
            b < set.branches ==> (match #[trigger] frontier(record, b) {
                Some(last) => last + 1,
                None => 0,
            }) + lookahead < 0x8000_0000,
        reframed(record, set, lookahead, confirmations) == Ok::<RecordModel, TrackerError>(after)
            ==> {
            &&& watched_scripts(after, set) is Ok
            &&& forall|other: Seq<char>| #[trigger]
                state.inner.records.contains_key(other) && state.inner.records[other].config.name
                    != record.config.name ==> registered_scripts(
                    state.inner.records[other],
                    state.network,
                ) is Ok && are_apart(
                    watched_scripts(after, set)->Ok_0,
                    registered_scripts(state.inner.records[other], state.network)->Ok_0,
                )
        },
    ensures
        reframed(record, set, lookahead, confirmations) is Ok,
        reframed(record, set, lookahead, confirmations) == Ok::<RecordModel, TrackerError>(after)
            ==> reframed_apart(state, record, set, lookahead, confirmations) == Ok::<
            RecordModel,
            RefusalModel,
        >(after),
{
    let configured = RecordModel {
        config: ConfigModel { lookahead, confirmations, ..record.config },
        ..record
    };
    assert forall|b: u32| b < set.branches implies (match #[trigger] frontier(configured, b) {
        Some(last) => last + 1,
        None => 0,
    }) + lookahead < 0x8000_0000 by {
        assert(frontier(configured, b) == frontier(record, b));
    }
    desired_ends_exist(configured, set.branches, lookahead, false);
    if reframed(record, set, lookahead, confirmations) == Ok::<RecordModel, TrackerError>(after) {
        scripts_of_no_other_are_accepted(
            after.config.name,
            watched_scripts(after, set)->Ok_0,
            state.inner.records,
            state.network,
        );
    }
}

/// A rescan is accepted where the descriptor is known, scanned and not being
/// deleted, its lookahead is within bounds and accepted, it starts no earlier than
/// the birth, and an interrupted one had asked for the same.
pub proof fn sound_rescan_is_accepted(
    state: StateModel,
    name: Seq<char>,
    start_block: Option<u32>,
    lookahead: Option<u32>,
)
    requires
        state.inner.records.contains_key(name),
        state.inner.records[name].status != DescriptorStatus::Deleting,
        state.inner.records[name].initial_scan_complete,
        config_set(state.inner.records[name].config, state.network) is Ok,
        lookahead is Some ==> 1 <= lookahead->Some_0 <= 100_000,
        lookahead is Some && !config_set(
            state.inner.records[name].config,
            state.network,
        )->Ok_0.ranged ==> lookahead->Some_0 == 1,
        start_block is Some ==> start_block->Some_0
            >= state.inner.records[name].config.birthheight,
        ({
            let before = state.inner.records[name];
            match before.pending_rescan {
                Some(pending) => {
                    &&& pending.start_block >= before.config.birthheight
                    &&& start_block is Some ==> start_block->Some_0 == pending.start_block
                    &&& lookahead is Some ==> lookahead->Some_0 == before.config.lookahead
                },
                None => {
                    &&& before.status == DescriptorStatus::Active
                    &&& reframed_apart(
                        state,
                        before,
                        config_set(before.config, state.network)->Ok_0,
                        match lookahead {
                            Some(lookahead) => lookahead,
                            None => before.config.lookahead,
                        },
                        before.config.confirmations,
                    ) is Ok
                },
            }
        }),
    ensures
        rescan_record(state, name, start_block, lookahead) is Ok,
{
    accepted_configuration_is_sound(state.inner.records[name].config, state.network);
    accepted_descriptor_is_sound(state.inner.records[name].config.descriptor, state.network);
}

/// An update is accepted where it asks for something, within bounds, no scan runs,
/// the descriptor is known and not being deleted, and either an interrupted update
/// had asked for the same, or the descriptor is active and the lookahead accepted.
pub proof fn sound_update_is_accepted(
    state: StateModel,
    name: Seq<char>,
    lookahead: Option<u32>,
    confirmations: Option<u32>,
)
    requires
        lookahead is Some || confirmations is Some,
        lookahead is Some ==> 1 <= lookahead->Some_0 <= 100_000,
        confirmations is Some ==> 1 <= confirmations->Some_0 <= 2_016,
        !state.active_scans.contains_key(name),
        state.inner.records.contains_key(name),
        state.inner.records[name].status != DescriptorStatus::Deleting,
        config_set(state.inner.records[name].config, state.network) is Ok,
        lookahead is Some && !config_set(
            state.inner.records[name].config,
            state.network,
        )->Ok_0.ranged ==> lookahead->Some_0 == 1,
        ({
            let before = state.inner.records[name];
            let gap = match lookahead {
                Some(lookahead) => lookahead,
                None => before.config.lookahead,
            };
            let depth = match confirmations {
                Some(confirmations) => confirmations,
                None => before.config.confirmations,
            };
            if before.status == DescriptorStatus::Syncing {
                &&& before.pending_rescan is None
                &&& before.initial_scan_complete
                &&& gap == before.config.lookahead
                &&& depth == before.config.confirmations
            } else {
                reframed_apart(
                    state,
                    before,
                    config_set(before.config, state.network)->Ok_0,
                    gap,
                    depth,
                ) is Ok
            }
        }),
    ensures
        update_record(state, name, lookahead, confirmations) is Ok,
{
    accepted_configuration_is_sound(state.inner.records[name].config, state.network);
    accepted_descriptor_is_sound(state.inner.records[name].config.descriptor, state.network);
}

/// A rescan and an update that change the lookahead leave each branch watched
/// exactly that many indexes beyond the last one that was used or given out. One of
/// a descriptor without a wildcard leaves its lookahead at one.
pub proof fn changed_lookahead_is_the_gap(
    state: StateModel,
    name: Seq<char>,
    start_block: Option<u32>,
    lookahead: Option<u32>,
    confirmations: Option<u32>,
    branch: u32,
)
    ensures
        ({
            let before = state.inner.records[name];
            let set = config_set(before.config, state.network)->Ok_0;
            let gap = match lookahead {
                Some(lookahead) => lookahead,
                None => before.config.lookahead,
            };
            let end = gap + (match frontier(before, branch) {
                Some(last) => last + 1,
                None => 0,
            });
            &&& rescan_record(state, name, start_block, lookahead) matches Ok(after) ==> {
                &&& before.pending_rescan is None && branch < set.branches ==> watched_end(
                    after,
                    branch,
                ) == end
                &&& !set.ranged ==> after.config.lookahead == 1
            }
            &&& update_record(state, name, lookahead, confirmations) matches Ok((step, after))
                ==> {
                &&& step == UpdateStep::Changed && branch < set.branches ==> watched_end(
                    after,
                    branch,
                ) == end
                &&& !set.ranged ==> after.config.lookahead == 1
            }
        }),
{
    let before = state.inner.records[name];
    let gap = match lookahead {
        Some(lookahead) => lookahead,
        None => before.config.lookahead,
    };
    let depth = match confirmations {
        Some(confirmations) => confirmations,
        None => before.config.confirmations,
    };
    accepted_configuration_is_sound(before.config, state.network);
    if config_set(before.config, state.network) is Ok {
        let set = config_set(before.config, state.network)->Ok_0;
        if branch < set.branches && reframed(before, set, gap, before.config.confirmations) is Ok {
            lookahead_is_the_gap(before, set, gap, before.config.confirmations, branch);
        }
        if branch < set.branches && reframed(before, set, gap, depth) is Ok {
            lookahead_is_the_gap(before, set, gap, depth, branch);
        }
    }
}

/// The last uses of a row of outputs are finitely many.
proof fn used_indexes_are_finite(outputs: Seq<UtxoModel>)
    ensures
        used_indexes(outputs).dom().finite(),
    decreases outputs.len(),
{
    if outputs.len() > 0 {
        used_indexes_are_finite(outputs.drop_last());
    }
}

/// Where a reverted block takes an output with it, the last used index of each
/// branch is the greatest one of the outputs that are kept, and the last used index
/// of the record is the greatest of those.
pub proof fn reverted_uses_are_those_of_kept_outputs(
    record: RecordModel,
    height: u32,
    gone: Seq<char>,
    key: Seq<char>,
    branch: u32,
)
    requires
        is_keyed(record),
        record.utxos.contains_key(gone),
        !reverted(record, height).record.utxos.contains_key(gone),
    ensures
        ({
            let after = reverted(record, height).record;
            let used = after.last_used_indexes;
            &&& after.utxos.contains_key(key) ==> {
                &&& used.contains_key(after.utxos[key].branch)
                &&& used[after.utxos[key].branch] >= after.utxos[key].derivation_index
            }
            &&& used.contains_key(branch) ==> {
                &&& exists|o: Seq<char>| #[trigger]
                    after.utxos.contains_key(o) && after.utxos[o].branch == branch
                        && after.utxos[o].derivation_index == used[branch]
                &&& after.last_used_index is Some
                &&& after.last_used_index->Some_0 >= used[branch]
            }
            &&& after.last_used_index matches Some(last) ==> exists|b: u32| #[trigger]
                used.contains_key(b) && used[b] == last
        }),
{
    reverted_outputs_are_unwatched(record, height, gone);
    let done = reverted(record, height);
    let calls = done.calls;
    assert(calls.contains(removal_of(output_watch(record.config.name, gone))));
    assert(calls.len() > 0);
    let after = done.record;
    let keys = sorted_keys(after.utxos.dom());
    let outputs = sorted_values(after.utxos);
    reverted_utxos_are_finite(record, height);
    crate::ordered::sorted_keys_of(after.utxos.dom());
    let used = used_indexes(outputs);
    assert(after.last_used_indexes == used);
    used_indexes_are_finite(outputs);
    let greatest = greatest_exists(used);
    greatest_is(used, greatest);
    if after.utxos.contains_key(key) {
        assert(keys.to_set().contains(key));
        let i = choose|i: int| 0 <= i < keys.len() && keys[i] == key;
        assert(outputs[i] == after.utxos[key]);
        used_indexes_are_the_greatest(outputs, after.utxos[key].branch);
    }
    used_indexes_are_the_greatest(outputs, branch);
    if used.contains_key(branch) {
        let i = choose|i: int|
            0 <= i < outputs.len() && (#[trigger] outputs[i]).branch == branch
                && outputs[i].derivation_index == used[branch];
        assert(keys.to_set().contains(keys[i]));
        assert(after.utxos.contains_key(keys[i]));
        assert(outputs[i] == after.utxos[keys[i]]);
    }
}

/// A reverted record has finitely many outputs.
proof fn reverted_utxos_are_finite(record: RecordModel, height: u32)
    requires
        is_keyed(record),
    ensures
        reverted(record, height).record.utxos.dom().finite(),
{
    let after = reverted(record, height).record.utxos.dom();
    assert forall|key: Seq<char>| #[trigger] after.contains(key) implies record.utxos.dom().contains(
        key,
    ) by {
        reverted_block_is_undone(record, height, key);
    }
    assert(after.subset_of(record.utxos.dom()));
    vstd::set_lib::lemma_set_subset_finite(record.utxos.dom(), after);
}

} // verus!
