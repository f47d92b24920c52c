//! What becomes of a descriptor when a block is reverted.

use crate::cln::{del_outpoint_watch, removal_of, CallModel, RpcCall};
use crate::error::{refusal_of, refusal_text, Refusal, TrackerError};
use crate::events::{
    deposit_id, deposit_movement, output_kept, output_spent, spend_id, spend_movement,
    ObservedModel,
};
use crate::frontier::{greatest, greatest_value};
use crate::incidents::keeps_incident;
use crate::model::{
    outpoint_owner, DescriptorRecord, MovementKind, MovementModel, PendingMovement, RecordModel,
    TrackedUtxo, UtxoModel,
};
use crate::ordered::{models, sorted_keys, sorted_values, Duplicate, TextMap};
use crate::restore::{collect_used_indexes, used_indexes};
use crate::state::{failure_reported, noted_failure, reorg_counted, AppState, StateModel};
use crate::text::occurs_at;
use crate::watches::output_watch;
use vstd::prelude::*;
use vstd::string::*;

verus! {

/// The movements of a row at a height.
pub open spec fn movements_at(movements: Seq<MovementModel>, height: u32) -> Seq<MovementModel>
    decreases movements.len(),
{
    if movements.len() == 0 {
        Seq::empty()
    } else {
        let rest = movements_at(movements.drop_last(), height);
        if movements.last().blockheight == height {
            rest.push(movements.last())
        } else {
            rest
        }
    }
}

/// The outpoints of the outputs of a row that were received at a height.
pub open spec fn received_at(outputs: Seq<UtxoModel>, height: u32) -> Seq<Seq<char>>
    decreases outputs.len(),
{
    if outputs.len() == 0 {
        Seq::empty()
    } else {
        let rest = received_at(outputs.drop_last(), height);
        if outputs.last().deposit_height == height {
            rest.push(outputs.last().outpoint)
        } else {
            rest
        }
    }
}

/// An output that is not spent.
pub open spec fn unspent(output: UtxoModel) -> UtxoModel {
    UtxoModel { spent_by: None, spent_height: None, ..output }
}

/// A record without a pending movement and without what it had done.
pub open spec fn movement_reverted(record: RecordModel, movement: MovementModel) -> RecordModel {
    let pending_movements = record.pending_movements.remove(movement.id);
    match movement.kind {
        MovementKind::Deposit => RecordModel {
            utxos: record.utxos.remove(movement.outpoint),
            pending_movements,
            ..record
        },
        MovementKind::Spend => if record.utxos.contains_key(movement.outpoint) {
            RecordModel {
                utxos: record.utxos.insert(
                    movement.outpoint,
                    unspent(record.utxos[movement.outpoint]),
                ),
                pending_movements,
                ..record
            }
        } else {
            RecordModel { pending_movements, ..record }
        },
        _ => RecordModel { pending_movements, ..record },
    }
}

/// A record without the first `count` of some pending movements.
pub open spec fn movements_reverted(
    record: RecordModel,
    movements: Seq<MovementModel>,
    count: nat,
) -> RecordModel
    decreases count,
{
    if count == 0 {
        record
    } else {
        movement_reverted(
            movements_reverted(record, movements, (count - 1) as nat),
            movements[count - 1],
        )
    }
}

/// The outpoints of the deposits of a row of movements.
pub open spec fn deposited(movements: Seq<MovementModel>) -> Seq<Seq<char>>
    decreases movements.len(),
{
    if movements.len() == 0 {
        Seq::empty()
    } else {
        let rest = deposited(movements.drop_last());
        if movements.last().kind == MovementKind::Deposit {
            rest.push(movements.last().outpoint)
        } else {
            rest
        }
    }
}

/// Outputs without the first `count` of some outpoints.
pub open spec fn outputs_removed(
    outputs: Map<Seq<char>, UtxoModel>,
    outpoints: Seq<Seq<char>>,
    count: nat,
) -> Map<Seq<char>, UtxoModel>
    decreases count,
{
    if count == 0 {
        outputs
    } else {
        outputs_removed(outputs, outpoints, (count - 1) as nat).remove(outpoints[count - 1])
    }
}

/// An output was spent at a height.
pub open spec fn is_spent_at(output: UtxoModel, height: u32) -> bool {
    output.spent_height == Some(height)
}

/// Outputs of which none was spent at a height.
pub open spec fn spends_cleared(outputs: Map<Seq<char>, UtxoModel>, height: u32) -> Map<
    Seq<char>,
    UtxoModel,
> {
    Map::new(
        |key: Seq<char>| outputs.contains_key(key),
        |key: Seq<char>|
            if is_spent_at(outputs[key], height) {
                unspent(outputs[key])
            } else {
                outputs[key]
            },
    )
}

/// One of some outputs was spent at a height.
pub open spec fn any_spent_at(outputs: Map<Seq<char>, UtxoModel>, height: u32) -> bool {
    exists|key: Seq<char>| #[trigger] outputs.contains_key(key) && is_spent_at(outputs[key], height)
}

/// What the reverting of a block does to a record.
#[verifier::ext_equal]
pub struct RevertModel {
    pub record: RecordModel,
    pub calls: Seq<CallModel>,
    pub changed: bool,
    pub booked: bool,
}

/// A record whose last used indexes are those of its outputs.
pub open spec fn with_last_uses(record: RecordModel) -> RecordModel {
    let used = used_indexes(sorted_values(record.utxos));
    RecordModel { last_used_indexes: used, last_used_index: greatest_value(used), ..record }
}

/// The calls that remove the watches of outpoints of a descriptor.
pub open spec fn output_removals(name: Seq<char>, outpoints: Seq<Seq<char>>) -> Seq<CallModel> {
    outpoints.map_values(|outpoint: Seq<char>| removal_of(output_watch(name, outpoint)))
}

/// What the reverting of the block at a height does to a record. Pending
/// movements of the block are taken back; what Bookkeeper was already told of
/// is taken back too and said to be booked.
pub open spec fn reverted(record: RecordModel, height: u32) -> RevertModel {
    let pending = movements_at(sorted_values(record.pending_movements), height);
    let taken_back = movements_reverted(record, pending, pending.len());
    let received = received_at(sorted_values(taken_back.utxos), height);
    let kept = outputs_removed(taken_back.utxos, received, received.len());
    let booked = received.len() > 0 || any_spent_at(kept, height);
    let removes = deposited(pending).len() > 0 || received.len() > 0;
    let cleared = RecordModel { utxos: spends_cleared(kept, height), ..taken_back };
    RevertModel {
        record: if removes {
            with_last_uses(cleared)
        } else {
            cleared
        },
        calls: output_removals(record.config.name, deposited(pending) + received),
        changed: pending.len() > 0 || booked,
        booked,
    }
}

/// What the reverting of a block does to a record: the record that it leaves,
/// the calls that remove watches, whether anything changed, and whether
/// Bookkeeper had been told of something that was taken back.
#[derive(Debug)]
pub struct Reverted {
    pub record: DescriptorRecord,
    pub calls: Vec<RpcCall>,
    pub changed: bool,
    pub booked: bool,
}

impl View for Reverted {
    type V = RevertModel;

    open spec fn view(&self) -> RevertModel {
        RevertModel {
            record: self.record@,
            calls: models(self.calls@),
            changed: self.changed,
            booked: self.booked,
        }
    }
}

/// The pending movements of a record at a height.
fn pending_at(record: &DescriptorRecord, height: u32) -> (r: Vec<PendingMovement>)
    ensures
        models(r@) == movements_at(sorted_values(record@.pending_movements), height),
{
    let pending = &record.pending_movements;
    let ghost keys = sorted_keys(pending@.dom());
    let ghost all = sorted_values(pending@);
    let n = pending.len();
    let mut r: Vec<PendingMovement> = Vec::new();
    let mut i: usize = 0;
    assert(models(r@) =~= Seq::<MovementModel>::empty());
    while i < n
        invariant
            i <= n,
            n == keys.len(),
            n == pending@.dom().len(),
            keys == sorted_keys(pending@.dom()),
            all == sorted_values(pending@),
            models(r@) == movements_at(all.take(i as int), height),
        decreases n - i,
    {
        let (_, movement) = pending.at(i);
        assert(all[i as int] == movement@);
        assert(all.take(i + 1).drop_last() =~= all.take(i as int));
        if movement.blockheight == height {
            let ghost before = models(r@);
            let copy = movement.duplicate();
            r.push(copy);
            assert(models(r@) =~= before.push(copy@));
        }
        i = i + 1;
    }
    assert(all.take(i as int) =~= all);
    r
}

/// The outpoints of the outputs that were received at a height.
fn outputs_at(outputs: &TextMap<TrackedUtxo>, height: u32) -> (r: Vec<String>)
    ensures
        models(r@) == received_at(sorted_values(outputs@), height),
{
    let ghost keys = sorted_keys(outputs@.dom());
    let ghost all = sorted_values(outputs@);
    let n = outputs.len();
    let mut r: Vec<String> = Vec::new();
    let mut i: usize = 0;
    assert(models(r@) =~= Seq::<Seq<char>>::empty());
    while i < n
        invariant
            i <= n,
            n == keys.len(),
            n == outputs@.dom().len(),
            keys == sorted_keys(outputs@.dom()),
            all == sorted_values(outputs@),
            models(r@) == received_at(all.take(i as int), height),
        decreases n - i,
    {
        let (_, output) = outputs.at(i);
        assert(all[i as int] == output@);
        assert(all.take(i + 1).drop_last() =~= all.take(i as int));
        if output.deposit_height == height {
            let ghost before = models(r@);
            r.push(output.outpoint.clone());
            assert(models(r@) =~= before.push(output@.outpoint));
        }
        i = i + 1;
    }
    assert(all.take(i as int) =~= all);
    r
}

/// Takes a pending movement and what it had done back.
fn revert_movement(record: &mut DescriptorRecord, movement: &PendingMovement)
    ensures
        final(record)@ == movement_reverted(old(record)@, movement@),
{
    let _ = record.pending_movements.remove(movement.id.as_str());
    match movement.kind {
        MovementKind::Deposit => {
            let _ = record.utxos.remove(movement.outpoint.as_str());
        },
        MovementKind::Spend => {
            let ghost before = record.utxos@;
            match record.utxos.remove(movement.outpoint.as_str()) {
                Some(output) => {
                    let mut output = output;
                    output.spent_by = None;
                    output.spent_height = None;
                    record.utxos.insert(movement.outpoint.clone(), output);
                    assert(record.utxos@ =~= before.insert(movement@.outpoint, output@));
                },
                None => {
                    assert(record.utxos@ =~= before);
                },
            }
        },
        MovementKind::ExternalDeposit => {},
        MovementKind::ExternalDescription => {},
    }
}

/// Takes the spends of outputs at a height back, and says whether there were
/// any.
fn clear_spends(outputs: &TextMap<TrackedUtxo>, height: u32) -> (r: (TextMap<TrackedUtxo>, bool))
    ensures
        r.0@ == spends_cleared(outputs@, height),
        r.1 == any_spent_at(outputs@, height),
{
    let ghost keys = sorted_keys(outputs@.dom());
    let n = outputs.len();
    let mut kept: TextMap<TrackedUtxo> = TextMap::new();
    let mut found = false;
    let mut i: usize = 0;
    while i < n
        invariant
            i <= n,
            n == keys.len(),
            n == outputs@.dom().len(),
            keys == sorted_keys(outputs@.dom()),
            outputs@.dom() == keys.to_set(),
            forall|key: Seq<char>| #[trigger]
                kept@.contains_key(key) <==> exists|j: int| 0 <= j < i && #[trigger] keys[j] == key,
            forall|key: Seq<char>| #[trigger]
                kept@.contains_key(key) ==> kept@[key] == spends_cleared(outputs@, height)[key],
            found == exists|j: int|
                0 <= j < i && is_spent_at(outputs@[#[trigger] keys[j]], height),
        decreases n - i,
    {
        let (key, output) = outputs.at(i);
        let mut output = output.duplicate();
        let spent = match output.spent_height {
            Some(at) => at == height,
            None => false,
        };
        assert(spent == is_spent_at(outputs@[keys[i as int]], height));
        if spent {
            found = true;
            output.spent_by = None;
            output.spent_height = None;
        }
        kept.insert(key.clone(), output);
        i = i + 1;
    }
    proof {
        assert forall|key: Seq<char>| #[trigger] kept@.contains_key(key) <==> outputs@.contains_key(
            key,
        ) by {
            if outputs@.contains_key(key) {
                assert(keys.to_set().contains(key));
                let j = choose|j: int| 0 <= j < keys.len() && keys[j] == key;
                assert(keys[j] == key);
            }
            if kept@.contains_key(key) {
                let j = choose|j: int| 0 <= j < n && #[trigger] keys[j] == key;
                assert(keys.contains(keys[j]));
                assert(keys.to_set().contains(key));
            }
        }
        assert(kept@ =~= spends_cleared(outputs@, height));
        if found {
            let j = choose|j: int| 0 <= j < n && is_spent_at(outputs@[#[trigger] keys[j]], height);
            assert(keys.contains(keys[j]));
            assert(keys.to_set().contains(keys[j]));
            assert(outputs@.contains_key(keys[j]));
        }
        if any_spent_at(outputs@, height) {
            let key = choose|key: Seq<char>| #[trigger]
                outputs@.contains_key(key) && is_spent_at(outputs@[key], height);
            assert(keys.to_set().contains(key));
            let j = choose|j: int| 0 <= j < keys.len() && keys[j] == key;
            assert(is_spent_at(outputs@[keys[j]], height));
        }
    }
    (kept, found)
}

/// Takes back what a record has of the block at a height.
pub fn revert_at_height(record: DescriptorRecord, height: u32) -> (r: Reverted)
    ensures
        r@ == reverted(record@, height),
{
    let ghost before = record@;
    let name = record.config.name.clone();
    let pending = pending_at(&record, height);
    let ghost movements = models(pending@);
    let mut record = record;
    let mut outpoints: Vec<String> = Vec::new();
    let mut i: usize = 0;
    assert(models(outpoints@) =~= Seq::<Seq<char>>::empty());
    while i < pending.len()
        invariant
            i <= pending.len(),
            movements == models(pending@),
            record@ == movements_reverted(before, movements, i as nat),
            models(outpoints@) == deposited(movements.take(i as int)),
        decreases pending.len() - i,
    {
        let movement = &pending[i];
        assert(movements[i as int] == movement@);
        assert(movements.take(i + 1).drop_last() =~= movements.take(i as int));
        revert_movement(&mut record, movement);
        if movement.kind == MovementKind::Deposit {
            let ghost listed = models(outpoints@);
            outpoints.push(movement.outpoint.clone());
            assert(models(outpoints@) =~= listed.push(movement@.outpoint));
        }
        i = i + 1;
    }
    assert(movements.take(i as int) =~= movements);
    let ghost taken_back = record@;
    let received = outputs_at(&record.utxos, height);
    let ghost booked_outpoints = models(received@);
    let removes = outpoints.len() > 0 || received.len() > 0;
    let mut k: usize = 0;
    let ghost deposits = models(outpoints@);
    assert(deposits + booked_outpoints.take(0) =~= deposits);
    while k < received.len()
        invariant
            k <= received.len(),
            booked_outpoints == models(received@),
            record@ == (RecordModel {
                utxos: outputs_removed(taken_back.utxos, booked_outpoints, k as nat),
                ..taken_back
            }),
            models(outpoints@) == deposits + booked_outpoints.take(k as int),
        decreases received.len() - k,
    {
        assert(booked_outpoints[k as int] == received[k as int]@);
        let ghost listed = models(outpoints@);
        let _ = record.utxos.remove(received[k].as_str());
        outpoints.push(received[k].clone());
        assert(models(outpoints@) =~= listed.push(booked_outpoints[k as int]));
        assert(models(outpoints@) =~= deposits + booked_outpoints.take(k + 1));
        k = k + 1;
    }
    assert(booked_outpoints.take(k as int) =~= booked_outpoints);
    let (kept, spent) = clear_spends(&record.utxos, height);
    record.utxos = kept;
    if removes {
        record.last_used_indexes = collect_used_indexes(&record.utxos);
        record.last_used_index = greatest(&record.last_used_indexes);
    }
    let booked = received.len() > 0 || spent;
    let changed = pending.len() > 0 || booked;
    let mut calls: Vec<RpcCall> = Vec::new();
    let mut m: usize = 0;
    while m < outpoints.len()
        invariant
            m <= outpoints.len(),
            calls.len() == m,
            forall|j: int|
                0 <= j < m ==> #[trigger] calls[j]@ == removal_of(
                    output_watch(name@, outpoints[j]@),
                ),
        decreases outpoints.len() - m,
    {
        let outpoint = outpoints[m].as_str();
        let owner = outpoint_owner(name.as_str(), outpoint);
        calls.push(del_outpoint_watch(owner.as_str(), outpoint));
        m = m + 1;
    }
    assert(models(calls@) =~= output_removals(name@, models(outpoints@)));
    Reverted { record, calls, changed, booked }
}

/// A state after the reverting of a block at a height has changed a
/// descriptor. What was booked is for an operator to resolve.
pub open spec fn reorg_reported(
    state: StateModel,
    name: Seq<char>,
    height: u32,
    booked: bool,
    now: u64,
) -> StateModel {
    if booked {
        StateModel {
            inner: failure_reported(
                state.inner,
                name,
                "bookkeeper_reorg"@,
                refusal_text(refusal_of(TrackerError::BookedReorg { height }, name)),
                true,
                now,
            ),
            ..state
        }
    } else {
        reorg_counted(state)
    }
}

/// The reverting of a block is noted on a descriptor.
pub open spec fn reorg_is_noted(state: StateModel, name: Seq<char>, booked: bool) -> bool {
    booked && noted_failure(state.inner, name, "bookkeeper_reorg"@) == Some(true)
}

/// Reports that the reverting of a block at a height has changed a descriptor.
/// Its record is to be stored where this holds.
pub fn report_reorg(
    state: &mut AppState,
    name: &str,
    height: u32,
    booked: bool,
    now: u64,
) -> (store: bool)
    ensures
        final(state)@ == reorg_reported(old(state)@, name@, height, booked, now),
        store == reorg_is_noted(old(state)@, name@, booked),
{
    if booked {
        let message = Refusal::of(TrackerError::BookedReorg { height }, name).message();
        match state.report_descriptor_failure(
            name,
            "bookkeeper_reorg",
            message.as_str(),
            true,
            now,
        ) {
            Some(noted) => noted,
            None => false,
        }
    } else {
        state.record_reorg();
        false
    }
}

/// A reorganisation that takes back what Bookkeeper was told of leaves an
/// incident that an operator must resolve.
pub proof fn booked_reorg_asks_for_an_operator(
    state: StateModel,
    name: Seq<char>,
    height: u32,
    now: u64,
)
    requires
        state.inner.records.contains_key(name),
    ensures
        ({
            let after = reorg_reported(state, name, height, true, now).inner.records[name];
            &&& after.incident is Some
            &&& after.incident->Some_0.operator_action_required || keeps_incident(
                state.inner.records[name],
                "bookkeeper_reorg"@,
            )
            &&& keeps_incident(state.inner.records[name], "bookkeeper_reorg"@)
                ==> after == state.inner.records[name]
        }),
{
}

/// A row of movements of which none is at a height.
proof fn no_movements_at(movements: Seq<MovementModel>, height: u32)
    requires
        forall|i: int| 0 <= i < movements.len() ==> (#[trigger] movements[i]).blockheight != height,
    ensures
        movements_at(movements, height).len() == 0,
    decreases movements.len(),
{
    if movements.len() > 0 {
        assert forall|i: int| 0 <= i < movements.len() - 1 implies (
        #[trigger] movements.drop_last()[i]).blockheight != height by {
            assert(movements.drop_last()[i] == movements[i]);
        }
        no_movements_at(movements.drop_last(), height);
        assert(movements[movements.len() - 1].blockheight != height);
    }
}

/// A row of movements of which one is at a height.
proof fn one_movement_at(movements: Seq<MovementModel>, height: u32, at: int)
    requires
        0 <= at < movements.len(),
        forall|i: int|
            0 <= i < movements.len() ==> ((#[trigger] movements[i]).blockheight == height <==> i
                == at),
    ensures
        movements_at(movements, height) == seq![movements[at]],
    decreases movements.len(),
{
    let rest = movements.drop_last();
    assert forall|i: int| 0 <= i < rest.len() implies #[trigger] rest[i] == movements[i] by {}
    if at == movements.len() - 1 {
        assert forall|i: int| 0 <= i < rest.len() implies (#[trigger] rest[i]).blockheight
            != height by {
            assert(rest[i] == movements[i]);
        }
        no_movements_at(rest, height);
        assert(movements_at(movements, height) =~= seq![movements[at]]);
    } else {
        assert forall|i: int| 0 <= i < rest.len() implies ((#[trigger] rest[i]).blockheight
            == height <==> i == at) by {
            assert(rest[i] == movements[i]);
        }
        one_movement_at(rest, height, at);
        assert(movements[movements.len() - 1].blockheight != height);
    }
}

/// A row of outputs of which none was received at a height.
proof fn none_received_at(outputs: Seq<UtxoModel>, height: u32)
    requires
        forall|i: int| 0 <= i < outputs.len() ==> (#[trigger] outputs[i]).deposit_height != height,
    ensures
        received_at(outputs, height).len() == 0,
    decreases outputs.len(),
{
    if outputs.len() > 0 {
        assert forall|i: int| 0 <= i < outputs.len() - 1 implies (
        #[trigger] outputs.drop_last()[i]).deposit_height != height by {
            assert(outputs.drop_last()[i] == outputs[i]);
        }
        none_received_at(outputs.drop_last(), height);
        assert(outputs[outputs.len() - 1].deposit_height != height);
    }
}

/// A record has nothing of the block at a height.
pub open spec fn is_clear_of(record: RecordModel, height: u32) -> bool {
    &&& forall|id: Seq<char>| #[trigger]
        record.pending_movements.contains_key(id) ==> record.pending_movements[id].blockheight
            != height
    &&& forall|key: Seq<char>| #[trigger]
        record.utxos.contains_key(key) ==> record.utxos[key].deposit_height != height
            && !is_spent_at(record.utxos[key], height)
}

/// The values of a finite map are those of its keys.
proof fn sorted_values_are<V>(m: Map<Seq<char>, V>)
    requires
        m.dom().finite(),
    ensures
        forall|i: int|
            0 <= i < sorted_values(m).len() ==> m.contains_key(#[trigger] sorted_keys(m.dom())[i])
                && sorted_values(m)[i] == m[sorted_keys(m.dom())[i]],
        forall|k: Seq<char>| #[trigger]
            m.contains_key(k) ==> exists|i: int|
                0 <= i < sorted_values(m).len() && #[trigger] sorted_keys(m.dom())[i] == k,
        forall|i: int, j: int|
            0 <= i < j < sorted_values(m).len() ==> #[trigger] sorted_keys(m.dom())[i]
                != #[trigger] sorted_keys(m.dom())[j],
{
    let keys = sorted_keys(m.dom());
    crate::ordered::sorted_keys_of(m.dom());
    assert forall|i: int| 0 <= i < keys.len() implies m.contains_key(#[trigger] keys[i]) by {
        assert(keys.contains(keys[i]));
        assert(keys.to_set().contains(keys[i]));
    }
    assert forall|k: Seq<char>| #[trigger] m.contains_key(k) implies exists|i: int|
        0 <= i < keys.len() && #[trigger] keys[i] == k by {
        assert(keys.to_set().contains(k));
    }
}

/// From a record without anything of a block nothing is taken back.
pub proof fn clear_record_is_kept(record: RecordModel, height: u32)
    requires
        is_clear_of(record, height),
        record.utxos.dom().finite(),
        record.pending_movements.dom().finite(),
    ensures
        reverted(record, height).record == record,
        !reverted(record, height).changed,
        reverted(record, height).calls.len() == 0,
{
    let movements = sorted_values(record.pending_movements);
    let outputs = sorted_values(record.utxos);
    sorted_values_are(record.pending_movements);
    sorted_values_are(record.utxos);
    assert forall|i: int| 0 <= i < movements.len() implies (#[trigger] movements[i]).blockheight
        != height by {
        let key = sorted_keys(record.pending_movements.dom())[i];
        assert(record.pending_movements.contains_key(key));
    }
    assert forall|i: int| 0 <= i < outputs.len() implies (#[trigger] outputs[i]).deposit_height
        != height by {
        let key = sorted_keys(record.utxos.dom())[i];
        assert(record.utxos.contains_key(key));
    }
    no_movements_at(movements, height);
    none_received_at(outputs, height);
    assert(movements_at(movements, height) =~= Seq::<MovementModel>::empty());
    assert(received_at(outputs, height) =~= Seq::<Seq<char>>::empty());
    assert(spends_cleared(record.utxos, height) =~= record.utxos);
}

/// The movement of one key is the only one at a height.
proof fn only_movement_at(
    pending: Map<Seq<char>, MovementModel>,
    id: Seq<char>,
    movement: MovementModel,
)
    requires
        pending.dom().finite(),
        !pending.contains_key(id),
        forall|key: Seq<char>| #[trigger]
            pending.contains_key(key) ==> pending[key].blockheight != movement.blockheight,
    ensures
        movements_at(sorted_values(pending.insert(id, movement)), movement.blockheight)
            == seq![movement],
{
    let after = pending.insert(id, movement);
    let keys = sorted_keys(after.dom());
    let movements = sorted_values(after);
    sorted_values_are(after);
    assert(after.contains_key(id));
    let at = choose|i: int| 0 <= i < movements.len() && #[trigger] keys[i] == id;
    assert(movements[at] == movement);
    assert forall|i: int| 0 <= i < movements.len() implies ((#[trigger] movements[i]).blockheight
        == movement.blockheight <==> i == at) by {
        assert(after.contains_key(keys[i]));
        if i != at {
            assert(keys[i] != keys[at]);
            assert(pending.contains_key(keys[i]));
        }
    }
    one_movement_at(movements, movement.blockheight, at);
}

/// Reverting the block of a deposit that Bookkeeper was not told of takes the
/// deposit back: the outputs and the pending movements are those of before, and
/// nothing is booked.
pub proof fn revert_undoes_deposit(
    record: RecordModel,
    output: ObservedModel,
    branch: u32,
    index: u32,
    height: u32,
    timestamp: u64,
    annotation: Option<Seq<char>>,
)
    requires
        is_clear_of(record, height),
        record.utxos.dom().finite(),
        record.pending_movements.dom().finite(),
        !record.utxos.contains_key(output.outpoint),
        !record.pending_movements.contains_key(deposit_id(output.outpoint)),
    ensures
        ({
            let after = reverted(
                output_kept(record, output, branch, index, height, timestamp, annotation),
                height,
            );
            &&& after.record.utxos == record.utxos
            &&& after.record.pending_movements == record.pending_movements
            &&& after.changed
            &&& !after.booked
            &&& after.calls == seq![
                removal_of(output_watch(record.config.name, output.outpoint)),
            ]
        }),
{
    let kept = output_kept(record, output, branch, index, height, timestamp, annotation);
    let movement = deposit_movement(output, height, timestamp, annotation);
    only_movement_at(record.pending_movements, deposit_id(output.outpoint), movement);
    let pending = movements_at(sorted_values(kept.pending_movements), height);
    assert(pending == seq![movement]);
    let taken_back = movements_reverted(kept, pending, 1);
    reveal_with_fuel(movements_reverted, 2);
    assert(taken_back.utxos =~= record.utxos);
    assert(taken_back.pending_movements =~= record.pending_movements);
    let outputs = sorted_values(record.utxos);
    sorted_values_are(record.utxos);
    assert forall|i: int| 0 <= i < outputs.len() implies (#[trigger] outputs[i]).deposit_height
        != height by {
        assert(record.utxos.contains_key(sorted_keys(record.utxos.dom())[i]));
    }
    none_received_at(outputs, height);
    let received = received_at(outputs, height);
    assert(received =~= Seq::<Seq<char>>::empty());
    assert(spends_cleared(record.utxos, height) =~= record.utxos);
    assert(pending.drop_last() =~= Seq::<MovementModel>::empty());
    assert(deposited(pending.drop_last()) =~= Seq::<Seq<char>>::empty());
    assert(deposited(pending) =~= seq![output.outpoint]);
    assert(output_removals(record.config.name, deposited(pending) + received) =~= seq![
        removal_of(output_watch(record.config.name, output.outpoint)),
    ]);
}

/// Reverting the block of a spend that Bookkeeper was not told of takes the
/// spend back: the outputs and the pending movements are those of before, and
/// nothing is booked.
pub proof fn revert_undoes_spend(
    record: RecordModel,
    outpoint: Seq<char>,
    spending_txid: Seq<char>,
    height: u32,
    timestamp: u64,
)
    requires
        is_clear_of(record, height),
        record.utxos.dom().finite(),
        record.pending_movements.dom().finite(),
        record.utxos.contains_key(outpoint),
        record.utxos[outpoint].spent_by is None,
        record.utxos[outpoint].spent_height is None,
        !record.pending_movements.contains_key(spend_id(outpoint, spending_txid)),
    ensures
        ({
            let after = reverted(
                output_spent(record, outpoint, spending_txid, height, timestamp),
                height,
            );
            &&& after.record == record
            &&& after.changed
            &&& !after.booked
            &&& after.calls.len() == 0
        }),
{
    let spent = output_spent(record, outpoint, spending_txid, height, timestamp);
    let movement = spend_movement(
        record.utxos[outpoint],
        outpoint,
        spending_txid,
        height,
        timestamp,
    );
    only_movement_at(record.pending_movements, spend_id(outpoint, spending_txid), movement);
    let pending = movements_at(sorted_values(spent.pending_movements), height);
    assert(pending == seq![movement]);
    let taken_back = movements_reverted(spent, pending, 1);
    reveal_with_fuel(movements_reverted, 2);
    assert(unspent(spent.utxos[outpoint]) == record.utxos[outpoint]);
    assert(taken_back.utxos =~= record.utxos);
    assert(taken_back.pending_movements =~= record.pending_movements);
    let outputs = sorted_values(record.utxos);
    sorted_values_are(record.utxos);
    assert forall|i: int| 0 <= i < outputs.len() implies (#[trigger] outputs[i]).deposit_height
        != height by {
        assert(record.utxos.contains_key(sorted_keys(record.utxos.dom())[i]));
    }
    none_received_at(outputs, height);
    let received = received_at(outputs, height);
    assert(received =~= Seq::<Seq<char>>::empty());
    assert(spends_cleared(record.utxos, height) =~= record.utxos);
    assert(pending.drop_last() =~= Seq::<MovementModel>::empty());
    assert(deposited(pending.drop_last()) =~= Seq::<Seq<char>>::empty());
    assert(deposited(pending) =~= Seq::<Seq<char>>::empty());
    assert(reverted(spent, height).record =~= record);
}

/// A reverted block that changed a descriptor is counted once, whether or not
/// Bookkeeper had been told of something. Only the latter leaves an incident, on
/// that descriptor alone.
pub proof fn reorganisation_is_reported(
    state: StateModel,
    name: Seq<char>,
    height: u32,
    booked: bool,
    now: u64,
    other: Seq<char>,
)
    requires
        state.inner.reorgs < u64::MAX,
    ensures
        ({
            let after = reorg_reported(state, name, height, booked, now);
            &&& after.inner.reorgs == state.inner.reorgs + 1
            &&& after.inner.bookkeeper_failures == state.inner.bookkeeper_failures
            &&& after.inner.reconciliation_failures == state.inner.reconciliation_failures
            &&& after.inner.issued_addresses == state.inner.issued_addresses
            &&& after.active_scans == state.active_scans
            &&& !booked ==> after.inner.records == state.inner.records
            &&& after.inner.records.dom() == state.inner.records.dom()
            &&& other != name ==> after.inner.records[other] == state.inner.records[other]
            &&& booked && state.inner.records.contains_key(name) ==> {
                &&& after.inner.records[name] == (RecordModel {
                    incident: after.inner.records[name].incident,
                    ..state.inner.records[name]
                })
                &&& state.inner.records[name].incident is None ==> {
                    let incident = after.inner.records[name].incident->Some_0;
                    &&& incident.operation == "bookkeeper_reorg"@
                    &&& incident.operator_action_required
                    &&& incident.first_seen == now
                    &&& incident.last_seen == now
                }
            }
        }),
{
    reveal_strlit("bookkeeper_reorg");
    reveal_strlit("reorg");
    assert("bookkeeper_reorg"@.subrange(11, 16) =~= "reorg"@);
    assert(occurs_at("bookkeeper_reorg"@, "reorg"@, 11));
    let after = reorg_reported(state, name, height, booked, now);
    assert(after.inner.records.dom() =~= state.inner.records.dom());
}

/// After a reverted block the record is stored where the incident was noted on it.
pub proof fn reported_reorganisation_is_stored(
    state: StateModel,
    name: Seq<char>,
    height: u32,
    booked: bool,
    now: u64,
)
    ensures
        ({
            let after = reorg_reported(state, name, height, booked, now);
            &&& reorg_is_noted(state, name, booked) ==> booked && after.inner.records.contains_key(
                name,
            ) && after.inner.records[name].incident is Some
                && after.inner.records[name].incident->Some_0.last_seen == now
            &&& !reorg_is_noted(state, name, booked) ==> after.inner.records
                =~= state.inner.records
        }),
{
}

} // verus!
