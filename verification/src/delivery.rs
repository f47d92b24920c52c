//! How movements reach Bookkeeper.

use crate::cln::{
    deposit_call, deposit_is_told, describe_utxo, description_call, description_is_told,
    external_deposit_call, external_deposit_is_told, inject_external_deposit, inject_utxo_deposit,
    inject_utxo_spend, spend_call, spend_is_told, CallModel, RpcCall,
};
use crate::error::{refusal_of, Refusal, RefusalModel, TrackerError};
use crate::incidents::{mark_success, success_marked};
use crate::model::{DescriptorRecord, MovementKind, MovementModel, RecordModel};
use crate::ordered::{models, push_contains, sorted_keys, sorted_values};
use crate::steps::Event;
use crate::text::{decimal_text, text_before};
use vstd::prelude::*;
use vstd::string::*;

verus! {

/// A movement at a height has a confirmation depth when the tip stands at a
/// height. The block of the movement is the first confirmation.
pub open spec fn is_mature(blockheight: u32, confirmations: u32, tip_height: u32) -> bool {
    let maturity = blockheight + (if confirmations == 0 {
        0
    } else {
        confirmations - 1
    });
    maturity <= u32::MAX && tip_height >= maturity
}

/// Whether a movement has the confirmation depth.
pub fn movement_is_mature(blockheight: u32, confirmations: u32, tip_height: u32) -> (r: bool)
    ensures
        r == is_mature(blockheight, confirmations, tip_height),
{
    let further: u32 = if confirmations == 0 {
        0
    } else {
        confirmations - 1
    };
    match blockheight.checked_add(further) {
        Some(maturity) => tip_height >= maturity,
        None => false,
    }
}

/// The ids of those movements of a row that have a confirmation depth.
pub open spec fn mature_ids(
    movements: Seq<MovementModel>,
    confirmations: u32,
    tip_height: u32,
) -> Seq<Seq<char>>
    decreases movements.len(),
{
    if movements.len() == 0 {
        Seq::empty()
    } else {
        let rest = mature_ids(movements.drop_last(), confirmations, tip_height);
        if is_mature(movements.last().blockheight, confirmations, tip_height) {
            rest.push(movements.last().id)
        } else {
            rest
        }
    }
}

/// The ids of the pending movements of a record that are due, in order.
pub open spec fn due_movements(record: RecordModel, tip_height: u32) -> Seq<Seq<char>> {
    mature_ids(
        sorted_values(record.pending_movements),
        record.config.confirmations,
        tip_height,
    )
}

/// The ids of the pending movements of a record that are due, in order.
pub fn mature_movements(record: &DescriptorRecord, tip_height: u32) -> (r: Vec<String>)
    ensures
        models(r@) == due_movements(record@, tip_height),
{
    let pending = &record.pending_movements;
    let n = pending.len();
    let ghost keys = sorted_keys(pending@.dom());
    let ghost all = sorted_values(pending@);
    let mut ids: Vec<String> = Vec::new();
    let mut i: usize = 0;
    assert(models(ids@) =~= Seq::<Seq<char>>::empty());
    while i < n
        invariant
            i <= n,
            n == keys.len(),
            n == pending@.dom().len(),
            keys == sorted_keys(pending@.dom()),
            all == sorted_values(pending@),
            models(ids@) == mature_ids(
                all.take(i as int),
                record@.config.confirmations,
                tip_height,
            ),
        decreases n - i,
    {
        let (_, movement) = pending.at(i);
        assert(all[i as int] == movement@);
        assert(all.take(i + 1).drop_last() =~= all.take(i as int));
        if movement_is_mature(movement.blockheight, record.config.confirmations, tip_height) {
            let ghost before = models(ids@);
            ids.push(movement.id.clone());
            assert(models(ids@) =~= before.push(movement@.id));
        }
        i = i + 1;
    }
    assert(all.take(i as int) =~= all);
    ids
}

/// The calls that describe an output, where it has a description.
pub open spec fn description_calls(
    outpoint: Seq<char>,
    description: Option<Seq<char>>,
) -> Seq<CallModel> {
    match description {
        Some(description) => seq![description_call(outpoint, description)],
        None => Seq::empty(),
    }
}

/// The calls that tell Bookkeeper of a movement of an account.
pub open spec fn movement_calls(account: Seq<char>, movement: MovementModel) -> Result<
    Seq<CallModel>,
    TrackerError,
> {
    match movement.kind {
        MovementKind::Deposit => Ok(
            seq![
                deposit_call(
                    account,
                    movement.outpoint,
                    movement.amount_msat,
                    movement.timestamp,
                    movement.blockheight,
                ),
            ] + description_calls(movement.outpoint, movement.description),
        ),
        MovementKind::Spend => match movement.spending_txid {
            None => Err(TrackerError::SpendWithoutTransaction),
            Some(spending_txid) => Ok(
                seq![
                    spend_call(
                        account,
                        movement.outpoint,
                        spending_txid,
                        movement.amount_msat,
                        movement.timestamp,
                        movement.blockheight,
                    ),
                ],
            ),
        },
        MovementKind::ExternalDeposit => Ok(
            seq![
                external_deposit_call(
                    account,
                    movement.outpoint,
                    movement.amount_msat,
                    movement.timestamp,
                    movement.blockheight,
                ),
            ] + description_calls(movement.outpoint, movement.description),
        ),
        MovementKind::ExternalDescription => match movement.description {
            None => Err(TrackerError::RepairWithoutDescription),
            Some(description) => Ok(seq![description_call(movement.outpoint, description)]),
        },
    }
}

/// The calls that tell Bookkeeper of the pending movement of a record with an
/// id.
pub open spec fn delivery(record: RecordModel, id: Seq<char>) -> Result<
    Seq<CallModel>,
    RefusalModel,
> {
    if !record.pending_movements.contains_key(id) {
        Err(refusal_of(TrackerError::MovementMissing, id))
    } else {
        match movement_calls(record.config.name, record.pending_movements[id]) {
            Ok(calls) => Ok(calls),
            Err(e) => Err(refusal_of(e, id)),
        }
    }
}

/// What a result of calls stands for.
pub open spec fn calls_model(r: Result<Vec<RpcCall>, Refusal>) -> Result<
    Seq<CallModel>,
    RefusalModel,
> {
    match r {
        Ok(calls) => Ok(models(calls@)),
        Err(e) => Err(e@),
    }
}

/// The calls that tell Bookkeeper of the pending movement of a record with an
/// id, in order.
pub fn deliver_movement(record: &DescriptorRecord, id: &str) -> (r: Result<Vec<RpcCall>, Refusal>)
    ensures
        calls_model(r) == delivery(record@, id@),
{
    let movement = match record.pending_movements.get(id) {
        None => {
            return Err(Refusal::of(TrackerError::MovementMissing, id));
        },
        Some(movement) => movement,
    };
    let account = record.config.name.as_str();
    let outpoint = movement.outpoint.as_str();
    let mut calls: Vec<RpcCall> = Vec::new();
    match movement.kind {
        MovementKind::Deposit => {
            calls.push(
                inject_utxo_deposit(
                    account,
                    outpoint,
                    movement.amount_msat,
                    movement.timestamp,
                    movement.blockheight,
                ),
            );
        },
        MovementKind::Spend => {
            match &movement.spending_txid {
                None => {
                    return Err(Refusal::of(TrackerError::SpendWithoutTransaction, id));
                },
                Some(spending_txid) => {
                    calls.push(
                        inject_utxo_spend(
                            account,
                            outpoint,
                            spending_txid.as_str(),
                            movement.amount_msat,
                            movement.timestamp,
                            movement.blockheight,
                        ),
                    );
                },
            }
        },
        MovementKind::ExternalDeposit => {
            calls.push(
                inject_external_deposit(
                    account,
                    outpoint,
                    movement.amount_msat,
                    movement.timestamp,
                    movement.blockheight,
                ),
            );
        },
        MovementKind::ExternalDescription => {
            if movement.description.is_none() {
                return Err(Refusal::of(TrackerError::RepairWithoutDescription, id));
            }
        },
    }
    if movement.kind != MovementKind::Spend {
        match &movement.description {
            Some(description) => {
                calls.push(describe_utxo(outpoint, description.as_str()));
            },
            None => {},
        }
    }
    assert(models(calls@) =~= delivery(record@, id@)->Ok_0);
    Ok(calls)
}

/// A record after Bookkeeper was told of a movement.
pub open spec fn movement_delivered(record: RecordModel, id: Seq<char>, now: u64) -> RecordModel {
    success_marked(
        RecordModel { pending_movements: record.pending_movements.remove(id), ..record },
        "bookkeeper_delivery"@,
        now,
    )
}

/// Takes a movement that Bookkeeper was told of off a record.
pub fn complete_delivery(record: &mut DescriptorRecord, id: &str, now: u64)
    ensures
        final(record)@ == movement_delivered(old(record)@, id@, now),
{
    let _ = record.pending_movements.remove(id);
    mark_success(record, "bookkeeper_delivery", now);
}

/// The height to take for the tip: what bwatch reports, and no less than a
/// height that is known.
pub open spec fn tip_of(reported: Option<u32>, fallback: u32) -> u32 {
    match reported {
        Some(height) => if height > fallback {
            height
        } else {
            fallback
        },
        None => fallback,
    }
}

/// The height to take for the tip: what bwatch reports, and no less than a
/// height that is known.
pub fn current_bwatch_height(reported: Option<u32>, fallback: u32) -> (r: u32)
    ensures
        r == tip_of(reported, fallback),
        r >= fallback,
        reported matches Some(height) ==> r >= height,
        r == fallback || reported == Some(r),
{
    match reported {
        Some(height) => if height > fallback {
            height
        } else {
            fallback
        },
        None => fallback,
    }
}

/// A movement is due exactly when the blocks from its own to the tip, both
/// counted, are as many as the confirmation depth: its own block is the first
/// confirmation, and at the tip one depth more takes one block more.
pub proof fn depth_counts_blocks(blockheight: u32, confirmations: u32, tip_height: u32)
    requires
        confirmations >= 1,
    ensures
        is_mature(blockheight, confirmations, tip_height) <==> tip_height + 1 - blockheight
            >= confirmations,
{
}

/// Bookkeeper is told of each movement as what it is, for the account of the
/// descriptor. A deposit is told with its own amount, time and height, and with a
/// description where it has one; a spend names its transaction; a payment to
/// someone else goes to the external account; a repair describes its output.
pub proof fn movement_is_told_as_it_is(account: Seq<char>, movement: MovementModel)
    ensures
        movement_calls(account, movement) matches Ok(calls) ==> {
            let first = calls[0];
            let amount = decimal_text(movement.amount_msat as nat) + "msat"@;
            &&& 1 <= calls.len() <= 2
            &&& first.params.text_field("outpoint"@) == Some(movement.outpoint)
            &&& movement.kind == MovementKind::Deposit || movement.kind
                == MovementKind::ExternalDeposit ==> {
                &&& first.method == "injectutxodeposit"@
                &&& calls.len() == 2 <==> movement.description is Some
            }
            &&& movement.kind == MovementKind::Spend ==> {
                &&& first.method == "injectutxospend"@
                &&& calls.len() == 1
                &&& movement.spending_txid is Some
                &&& first.params.text_field("spending_txid"@) == movement.spending_txid
            }
            &&& movement.kind == MovementKind::Deposit || movement.kind == MovementKind::Spend
                ==> first.params.text_field("account"@) == Some(account)
            &&& movement.kind == MovementKind::ExternalDeposit ==> {
                &&& first.params.text_field("account"@) == Some("external"@)
                &&& first.params.text_field("transfer_from"@) == Some(account)
            }
            &&& movement.kind != MovementKind::ExternalDescription ==> {
                &&& first.params.text_field("amount_msat"@) == Some(amount)
                &&& first.params.number_field("timestamp"@) == Some(movement.timestamp)
                &&& first.params.number_field("blockheight"@) == Some(
                    movement.blockheight as u64,
                )
            }
            &&& movement.kind == MovementKind::ExternalDescription ==> calls.len() == 1
            &&& movement.kind == MovementKind::ExternalDescription || calls.len() == 2 ==> {
                &&& calls.last().method == "bkpr-editdescriptionbyoutpoint"@
                &&& calls.last().params.text_field("outpoint"@) == Some(movement.outpoint)
                &&& movement.description is Some
                &&& calls.last().params.text_field("description"@) == movement.description
            }
        },
        movement_calls(account, movement) is Err <==> (movement.kind == MovementKind::Spend
            && movement.spending_txid is None) || (movement.kind
            == MovementKind::ExternalDescription && movement.description is None),
{
    deposit_is_told(
        account,
        movement.outpoint,
        movement.amount_msat,
        movement.timestamp,
        movement.blockheight,
    );
    external_deposit_is_told(
        account,
        movement.outpoint,
        movement.amount_msat,
        movement.timestamp,
        movement.blockheight,
    );
    if movement.spending_txid is Some {
        spend_is_told(
            account,
            movement.outpoint,
            movement.spending_txid->Some_0,
            movement.amount_msat,
            movement.timestamp,
            movement.blockheight,
        );
    }
    if movement.description is Some {
        description_is_told(movement.outpoint, movement.description->Some_0);
    }
}

/// What is told for a pending movement is told for the name of its descriptor,
/// and nothing is told for an id under which nothing waits.
pub proof fn delivery_is_of_the_movement(record: RecordModel, id: Seq<char>)
    ensures
        record.pending_movements.contains_key(id) ==> match movement_calls(
            record.config.name,
            record.pending_movements[id],
        ) {
            Ok(calls) => delivery(record, id) == Ok::<Seq<CallModel>, RefusalModel>(calls),
            Err(_) => delivery(record, id) is Err,
        },
        !record.pending_movements.contains_key(id) ==> delivery(record, id) is Err,
{
}

/// A movement that Bookkeeper was told of is taken off, and nothing else that the
/// record has found or waits for changes.
pub proof fn delivered_movement_is_taken_off(
    record: RecordModel,
    id: Seq<char>,
    now: u64,
    other: Seq<char>,
)
    ensures
        ({
            let after = movement_delivered(record, id, now);
            &&& !after.pending_movements.contains_key(id)
            &&& other != id ==> after.pending_movements.contains_key(other)
                == record.pending_movements.contains_key(other) && after.pending_movements[other]
                == record.pending_movements[other]
            &&& after.utxos == record.utxos
            &&& after.external_outpoints == record.external_outpoints
            &&& after.config == record.config
            &&& after.status == record.status
            &&& after.range_ends == record.range_ends
            &&& after.next_indexes == record.next_indexes
            &&& after.last_used_indexes == record.last_used_indexes
            &&& after.pending_rescan == record.pending_rescan
            &&& after.generation == record.generation
            &&& after.last_success_at == Some(now)
        }),
{
}

/// The height that is taken for the tip is the greater of what bwatch reports and
/// what is known.
pub proof fn tip_is_the_greater_height(reported: Option<u32>, fallback: u32)
    ensures
        tip_of(reported, fallback) >= fallback,
        reported is Some ==> tip_of(reported, fallback) >= reported->Some_0,
        tip_of(reported, fallback) == fallback || reported == Some(tip_of(reported, fallback)),
{
}

/// A movement that is due stays due while the tip rises, and whatever smaller
/// depth is asked.
pub proof fn maturity_is_kept(
    blockheight: u32,
    confirmations: u32,
    tip_height: u32,
    fewer: u32,
    higher: u32,
)
    requires
        is_mature(blockheight, confirmations, tip_height),
        fewer <= confirmations,
        tip_height <= higher,
    ensures
        is_mature(blockheight, fewer, higher),
{
}

/// The pending movements of a record are kept under their ids.
pub open spec fn movements_keyed(pending: Map<Seq<char>, MovementModel>) -> bool {
    forall|id: Seq<char>| #[trigger] pending.contains_key(id) ==> pending[id].id == id
}

/// The ids of the movements of a row that are due.
proof fn mature_ids_hold(
    movements: Seq<MovementModel>,
    confirmations: u32,
    tip_height: u32,
    id: Seq<char>,
)
    ensures
        mature_ids(movements, confirmations, tip_height).contains(id) <==> exists|i: int|
            0 <= i < movements.len() && #[trigger] movements[i].id == id && is_mature(
                movements[i].blockheight,
                confirmations,
                tip_height,
            ),
    decreases movements.len(),
{
    if movements.len() > 0 {
        let rest = movements.drop_last();
        let ids = mature_ids(rest, confirmations, tip_height);
        let last = movements.last();
        mature_ids_hold(rest, confirmations, tip_height, id);
        crate::ordered::push_contains(ids, last.id, id);
        if ids.contains(id) {
            let i = choose|i: int|
                0 <= i < rest.len() && #[trigger] rest[i].id == id && is_mature(
                    rest[i].blockheight,
                    confirmations,
                    tip_height,
                );
            assert(movements[i].id == id);
        }
        if exists|i: int|
            0 <= i < movements.len() && #[trigger] movements[i].id == id && is_mature(
                movements[i].blockheight,
                confirmations,
                tip_height,
            ) {
            let i = choose|i: int|
                0 <= i < movements.len() && #[trigger] movements[i].id == id && is_mature(
                    movements[i].blockheight,
                    confirmations,
                    tip_height,
                );
            if i < movements.len() - 1 {
                assert(rest[i].id == id);
            }
        }
        assert(movements[movements.len() - 1].id == last.id);
    }
}

/// The movements that are due at a tip are exactly the pending ones that have
/// the confirmation depth.
pub proof fn due_movements_are_the_mature_ones(record: RecordModel, tip_height: u32)
    requires
        record.pending_movements.dom().finite(),
        movements_keyed(record.pending_movements),
    ensures
        forall|id: Seq<char>|
            #![trigger due_movements(record, tip_height).contains(id)]
            due_movements(record, tip_height).contains(id) <==> {
                &&& record.pending_movements.contains_key(id)
                &&& is_mature(
                    record.pending_movements[id].blockheight,
                    record.config.confirmations,
                    tip_height,
                )
            },
{
    let pending = record.pending_movements;
    let keys = sorted_keys(pending.dom());
    let movements = sorted_values(pending);
    crate::ordered::sorted_keys_of(pending.dom());
    assert forall|id: Seq<char>|
        #![trigger due_movements(record, tip_height).contains(id)]
        due_movements(record, tip_height).contains(id) <==> pending.contains_key(id) && is_mature(
            pending[id].blockheight,
            record.config.confirmations,
            tip_height,
        ) by {
        mature_ids_hold(movements, record.config.confirmations, tip_height, id);
        if pending.contains_key(id) {
            assert(keys.to_set().contains(id));
            let i = choose|i: int| 0 <= i < keys.len() && keys[i] == id;
            assert(movements[i] == pending[id]);
            assert(movements[i].id == id);
        }
        assert forall|i: int| 0 <= i < movements.len() implies pending.contains_key(
            #[trigger] movements[i].id,
        ) && pending[movements[i].id] == movements[i] by {
            assert(keys.contains(keys[i]));
            assert(keys.to_set().contains(keys[i]));
            assert(movements[i] == pending[keys[i]]);
        }
    }
}

/// A movement that was delivered is never due again, and the others are due as
/// they were before: delivery can stop after any movement and be taken up.
pub proof fn delivered_movement_is_done(
    record: RecordModel,
    id: Seq<char>,
    now: u64,
    tip_height: u32,
    other: Seq<char>,
)
    requires
        record.pending_movements.dom().finite(),
        movements_keyed(record.pending_movements),
    ensures
        ({
            let after = movement_delivered(record, id, now);
            &&& !due_movements(after, tip_height).contains(id)
            &&& other != id ==> due_movements(after, tip_height).contains(other)
                == due_movements(record, tip_height).contains(other)
            &&& after.utxos == record.utxos
        }),
{
    let after = movement_delivered(record, id, now);
    assert(after.pending_movements.dom() =~= record.pending_movements.dom().remove(id));
    assert(movements_keyed(after.pending_movements));
    due_movements_are_the_mature_ones(record, tip_height);
    due_movements_are_the_mature_ones(after, tip_height);
    assert(due_movements(after, tip_height).contains(id) ==> false);
}

/// How far the delivery of a queue of movements has come.
#[derive(Clone, Copy, Debug, PartialEq, Eq, Structural)]
pub enum DeliveryPhase {
    /// A call of the movement at a position of the queue is to be made.
    Telling { position: usize, call: usize },
    /// The movement at a position of the queue is to be taken off, and the
    /// record stored.
    Storing { position: usize },
    /// The movement at a position of the queue cannot be told.
    Refused { position: usize },
    /// Nothing is left in the queue.
    Finished,
    /// A step failed.
    Stopped,
}

/// What is to be done next in a delivery.
#[derive(Debug, PartialEq, Eq)]
pub enum DeliveryAction {
    /// Make a call.
    Tell(RpcCall),
    /// Take a movement off, and store the record.
    Store(String),
    /// Answer that the next movement cannot be told.
    Refuse(Refusal),
    /// Answer that the queue is delivered.
    Finish,
    /// Answer that a step failed.
    Stop,
}

/// What a [`DeliveryAction`] stands for.
#[verifier::ext_equal]
pub enum DeliveryModel {
    Tell(CallModel),
    Store(Seq<char>),
    Refuse(RefusalModel),
    Finish,
    Stop,
}

impl View for DeliveryAction {
    type V = DeliveryModel;

    open spec fn view(&self) -> DeliveryModel {
        match self {
            DeliveryAction::Tell(call) => DeliveryModel::Tell(call@),
            DeliveryAction::Store(id) => DeliveryModel::Store(id@),
            DeliveryAction::Refuse(refusal) => DeliveryModel::Refuse(refusal@),
            DeliveryAction::Finish => DeliveryModel::Finish,
            DeliveryAction::Stop => DeliveryModel::Stop,
        }
    }
}

/// The calls of the movement at a position of a queue: none beyond its end, and
/// none where it cannot be told.
pub open spec fn queued_calls(
    record: RecordModel,
    queue: Seq<Seq<char>>,
    position: usize,
) -> Seq<CallModel> {
    if position < queue.len() && delivery(record, queue[position as int]) is Ok {
        delivery(record, queue[position as int])->Ok_0
    } else {
        Seq::empty()
    }
}

/// The phase in which the movement at a position of a queue is taken up.
pub open spec fn phase_from(
    record: RecordModel,
    queue: Seq<Seq<char>>,
    position: usize,
) -> DeliveryPhase {
    if position >= queue.len() {
        DeliveryPhase::Finished
    } else if delivery(record, queue[position as int]) is Err {
        DeliveryPhase::Refused { position }
    } else {
        DeliveryPhase::Telling { position, call: 0 }
    }
}

/// The phase after what was to be done in a phase is done. In the one that
/// follows a storing, the record is that which was stored.
pub open spec fn phase_following(
    record: RecordModel,
    queue: Seq<Seq<char>>,
    phase: DeliveryPhase,
) -> DeliveryPhase {
    match phase {
        DeliveryPhase::Telling { position, call } => if call + 1 < queued_calls(
            record,
            queue,
            position,
        ).len() {
            DeliveryPhase::Telling { position, call: (call + 1) as usize }
        } else {
            DeliveryPhase::Storing { position }
        },
        DeliveryPhase::Storing { position } => if position < queue.len() {
            phase_from(record, queue, (position + 1) as usize)
        } else {
            DeliveryPhase::Stopped
        },
        other => other,
    }
}

/// The phase after a step has ended.
pub open spec fn delivery_phase(
    record: RecordModel,
    queue: Seq<Seq<char>>,
    phase: DeliveryPhase,
    event: Event,
) -> DeliveryPhase {
    match event {
        Event::Done => phase_following(record, queue, phase),
        Event::Failed => DeliveryPhase::Stopped,
    }
}

/// What is to be done in a phase of a delivery.
pub open spec fn delivery_action(
    record: RecordModel,
    queue: Seq<Seq<char>>,
    phase: DeliveryPhase,
) -> DeliveryModel {
    match phase {
        DeliveryPhase::Telling { position, call } => if call < queued_calls(
            record,
            queue,
            position,
        ).len() {
            DeliveryModel::Tell(queued_calls(record, queue, position)[call as int])
        } else {
            DeliveryModel::Stop
        },
        DeliveryPhase::Storing { position } => if position < queue.len() {
            DeliveryModel::Store(queue[position as int])
        } else {
            DeliveryModel::Stop
        },
        DeliveryPhase::Refused { position } => if position < queue.len() && delivery(
            record,
            queue[position as int],
        ) is Err {
            DeliveryModel::Refuse(delivery(record, queue[position as int])->Err_0)
        } else {
            DeliveryModel::Stop
        },
        DeliveryPhase::Finished => DeliveryModel::Finish,
        DeliveryPhase::Stopped => DeliveryModel::Stop,
    }
}

/// The calls of the movement at a position of a queue.
fn calls_at(record: &DescriptorRecord, queue: &Vec<String>, position: usize) -> (r: Vec<RpcCall>)
    ensures
        models(r@) == queued_calls(record@, models(queue@), position),
{
    let none: Vec<RpcCall> = Vec::new();
    assert(models(none@) =~= Seq::<CallModel>::empty());
    if position >= queue.len() {
        return none;
    }
    assert(models(queue@)[position as int] == queue[position as int]@);
    match deliver_movement(record, queue[position].as_str()) {
        Ok(calls) => calls,
        Err(_) => none,
    }
}

/// The phase in which the movement at a position of a queue is taken up.
fn take_up(record: &DescriptorRecord, queue: &Vec<String>, position: usize) -> (r: DeliveryPhase)
    ensures
        r == phase_from(record@, models(queue@), position),
{
    if position >= queue.len() {
        return DeliveryPhase::Finished;
    }
    assert(models(queue@)[position as int] == queue[position as int]@);
    match deliver_movement(record, queue[position].as_str()) {
        Ok(_) => DeliveryPhase::Telling { position, call: 0 },
        Err(_) => DeliveryPhase::Refused { position },
    }
}

/// What is to be done in a phase of a delivery.
fn act(record: &DescriptorRecord, queue: &Vec<String>, phase: DeliveryPhase) -> (r: DeliveryAction)
    ensures
        r@ == delivery_action(record@, models(queue@), phase),
{
    match phase {
        DeliveryPhase::Telling { position, call } => {
            let mut calls = calls_at(record, queue, position);
            if call < calls.len() {
                assert(models(calls@)[call as int] == calls[call as int]@);
                DeliveryAction::Tell(calls.swap_remove(call))
            } else {
                DeliveryAction::Stop
            }
        },
        DeliveryPhase::Storing { position } => if position < queue.len() {
            assert(models(queue@)[position as int] == queue[position as int]@);
            DeliveryAction::Store(queue[position].clone())
        } else {
            DeliveryAction::Stop
        },
        DeliveryPhase::Refused { position } => {
            if position >= queue.len() {
                return DeliveryAction::Stop;
            }
            assert(models(queue@)[position as int] == queue[position as int]@);
            match deliver_movement(record, queue[position].as_str()) {
                Ok(_) => DeliveryAction::Stop,
                Err(refusal) => DeliveryAction::Refuse(refusal),
            }
        },
        DeliveryPhase::Finished => DeliveryAction::Finish,
        DeliveryPhase::Stopped => DeliveryAction::Stop,
    }
}

/// Begins the delivery of a queue of movements of a record.
pub fn first_delivery(record: &DescriptorRecord, queue: &Vec<String>) -> (r: (
    DeliveryPhase,
    DeliveryAction,
))
    ensures
        r.0 == phase_from(record@, models(queue@), 0),
        r.1@ == delivery_action(record@, models(queue@), r.0),
{
    let phase = take_up(record, queue, 0);
    (phase, act(record, queue, phase))
}

/// Goes on with the delivery of a queue of movements of a record, given how the
/// action of its phase ended: after a storing, of the record that was stored.
pub fn next_delivery(
    record: &DescriptorRecord,
    queue: &Vec<String>,
    phase: DeliveryPhase,
    event: Event,
) -> (r: (DeliveryPhase, DeliveryAction))
    ensures
        r.0 == delivery_phase(record@, models(queue@), phase, event),
        r.1@ == delivery_action(record@, models(queue@), r.0),
{
    let next = match event {
        Event::Failed => DeliveryPhase::Stopped,
        Event::Done => match phase {
            DeliveryPhase::Telling { position, call } => {
                let count = calls_at(record, queue, position).len();
                if call < count && call + 1 < count {
                    DeliveryPhase::Telling { position, call: call + 1 }
                } else {
                    DeliveryPhase::Storing { position }
                }
            },
            DeliveryPhase::Storing { position } => if position < queue.len() {
                take_up(record, queue, position + 1)
            } else {
                DeliveryPhase::Stopped
            },
            other => other,
        },
    };
    (next, act(record, queue, next))
}

/// When a record was stored, and the generation that it then had.
pub struct StoreModel {
    pub time: u64,
    pub generation: u64,
}

/// A record after a movement was taken off, and the record was stored.
pub open spec fn taken_off_and_stored(
    record: RecordModel,
    id: Seq<char>,
    store: StoreModel,
) -> RecordModel {
    RecordModel {
        generation: Some(store.generation),
        ..movement_delivered(record, id, store.time)
    }
}

/// The record as it was last stored and the phase of the delivery of a queue,
/// after the first `count` of its steps have ended as `events` says, where a
/// step that stores does so as `stores` says.
pub open spec fn delivery_at(
    record: RecordModel,
    queue: Seq<Seq<char>>,
    events: Seq<Event>,
    stores: Seq<StoreModel>,
    count: nat,
) -> (RecordModel, DeliveryPhase)
    decreases count,
{
    if count == 0 {
        (record, phase_from(record, queue, 0))
    } else {
        let (before, phase) = delivery_at(record, queue, events, stores, (count - 1) as nat);
        let event = events[count - 1];
        let after = match phase {
            DeliveryPhase::Storing { position } => if event == Event::Done && position
                < queue.len() {
                taken_off_and_stored(before, queue[position as int], stores[count - 1])
            } else {
                before
            },
            _ => before,
        };
        (after, delivery_phase(after, queue, phase, event))
    }
}

/// At a step a call of the movement at a position was to be made, and was.
pub open spec fn told_at(
    record: RecordModel,
    queue: Seq<Seq<char>>,
    events: Seq<Event>,
    stores: Seq<StoreModel>,
    step: int,
    position: usize,
    call: int,
) -> bool {
    &&& 0 <= step < events.len()
    &&& events[step] == Event::Done
    &&& delivery_at(record, queue, events, stores, step as nat).1 == (DeliveryPhase::Telling {
        position,
        call: call as usize,
    })
}

/// The last `told` of the first `count` steps made the first calls of the
/// movement at a position, in order.
pub open spec fn were_told(
    record: RecordModel,
    queue: Seq<Seq<char>>,
    events: Seq<Event>,
    stores: Seq<StoreModel>,
    count: nat,
    position: usize,
    told: nat,
) -> bool {
    told <= count && forall|i: int|
        0 <= i < told ==> #[trigger] told_at(
            record,
            queue,
            events,
            stores,
            count - told + i,
            position,
            i,
        )
}

/// Every movement that can be told has a call.
proof fn movement_has_a_call(record: RecordModel, id: Seq<char>)
    requires
        delivery(record, id) is Ok,
    ensures
        delivery(record, id)->Ok_0.len() > 0,
{
}

/// What holds of each phase of a delivery: how it was come to.
proof fn delivery_history(
    record: RecordModel,
    queue: Seq<Seq<char>>,
    events: Seq<Event>,
    stores: Seq<StoreModel>,
    count: nat,
)
    requires
        count <= events.len(),
        queue.len() <= usize::MAX,
    ensures
        delivery_at(record, queue, events, stores, count).1 matches DeliveryPhase::Telling {
            position,
            call,
        } ==> {
            &&& position < queue.len()
            &&& call <= count
            &&& call < queued_calls(
                delivery_at(record, queue, events, stores, count).0,
                queue,
                position,
            ).len()
            &&& were_told(record, queue, events, stores, count, position, call as nat)
        },
        delivery_at(record, queue, events, stores, count).1 matches DeliveryPhase::Storing {
            position,
        } ==> ({
            let calls = queued_calls(
                delivery_at(record, queue, events, stores, count).0,
                queue,
                position,
            );
            &&& position < queue.len()
            &&& 0 < calls.len() <= count
            &&& were_told(record, queue, events, stores, count, position, calls.len())
        }),
        delivery_at(record, queue, events, stores, count).1 matches DeliveryPhase::Refused {
            position,
        } ==> position < queue.len(),
    decreases count,
{
    if count > 0 {
        let fewer = (count - 1) as nat;
        delivery_history(record, queue, events, stores, fewer);
        let (before, phase) = delivery_at(record, queue, events, stores, fewer);
        let (after, next) = delivery_at(record, queue, events, stores, count);
        match phase {
            DeliveryPhase::Telling { position, call } => {
                assert(after == before);
                if events[count - 1] == Event::Done {
                    let told = (call + 1) as nat;
                    assert forall|i: int| 0 <= i < told implies #[trigger] told_at(
                        record,
                        queue,
                        events,
                        stores,
                        count - told + i,
                        position,
                        i,
                    ) by {
                        if i < call {
                            assert(told_at(
                                record,
                                queue,
                                events,
                                stores,
                                fewer - call + i,
                                position,
                                i,
                            ));
                        }
                    }
                    assert(were_told(record, queue, events, stores, count, position, told));
                }
            },
            DeliveryPhase::Storing { position } => {
                if events[count - 1] == Event::Done && position + 1 < queue.len() && delivery(
                    after,
                    queue[position + 1],
                ) is Ok {
                    movement_has_a_call(after, queue[position + 1]);
                }
                assert(next matches DeliveryPhase::Telling { position, call } ==> were_told(
                    record,
                    queue,
                    events,
                    stores,
                    count,
                    position,
                    0,
                ));
            },
            _ => {},
        }
    } else {
        if 0 < queue.len() && delivery(record, queue[0]) is Ok {
            movement_has_a_call(record, queue[0]);
        }
    }
}

/// A movement is taken off and stored only after all its calls were made, one
/// after the other and in order.
pub proof fn told_before_it_is_taken_off(
    record: RecordModel,
    queue: Seq<Seq<char>>,
    events: Seq<Event>,
    stores: Seq<StoreModel>,
    count: nat,
    position: usize,
)
    requires
        count <= events.len(),
        queue.len() <= usize::MAX,
        delivery_at(record, queue, events, stores, count).1 == (DeliveryPhase::Storing {
            position,
        }),
    ensures
        position < queue.len(),
        ({
            let current = delivery_at(record, queue, events, stores, count).0;
            let calls = queued_calls(current, queue, position);
            &&& delivery(current, queue[position as int]) == Ok::<Seq<CallModel>, RefusalModel>(
                calls,
            )
            &&& were_told(record, queue, events, stores, count, position, calls.len())
        }),
{
    delivery_history(record, queue, events, stores, count);
}

/// A movement is told of only once the one before it was taken off and stored.
pub proof fn stored_before_the_next_is_told(
    record: RecordModel,
    queue: Seq<Seq<char>>,
    events: Seq<Event>,
    stores: Seq<StoreModel>,
    count: nat,
    position: usize,
)
    requires
        count <= events.len(),
        queue.len() <= usize::MAX,
        0 < position,
        delivery_at(record, queue, events, stores, count).1 == (DeliveryPhase::Telling {
            position,
            call: 0,
        }),
    ensures
        0 < count,
        events[count - 1] == Event::Done,
        delivery_at(record, queue, events, stores, (count - 1) as nat).1 == (
        DeliveryPhase::Storing { position: (position - 1) as usize }),
        delivery_at(record, queue, events, stores, count).0 == taken_off_and_stored(
            delivery_at(record, queue, events, stores, (count - 1) as nat).0,
            queue[position - 1],
            stores[count - 1],
        ),
{
    delivery_history(record, queue, events, stores, count);
    if count > 0 {
        delivery_history(record, queue, events, stores, (count - 1) as nat);
    }
}

/// Nothing is told, taken off or stored after a step that failed.
pub proof fn nothing_is_told_after_a_failure(
    record: RecordModel,
    queue: Seq<Seq<char>>,
    events: Seq<Event>,
    stores: Seq<StoreModel>,
    failed: nat,
    count: nat,
)
    requires
        failed < count <= events.len(),
        events[failed as int] == Event::Failed,
    ensures
        delivery_at(record, queue, events, stores, count).1 == DeliveryPhase::Stopped,
        delivery_at(record, queue, events, stores, count).0 == delivery_at(
            record,
            queue,
            events,
            stores,
            failed,
        ).0,
    decreases count,
{
    if failed + 1 < count {
        nothing_is_told_after_a_failure(record, queue, events, stores, failed, (count - 1) as nat);
    }
}

/// Nothing is told, taken off or stored once a movement could not be told.
pub proof fn nothing_is_told_after_a_refusal(
    record: RecordModel,
    queue: Seq<Seq<char>>,
    events: Seq<Event>,
    stores: Seq<StoreModel>,
    refused: nat,
    count: nat,
)
    requires
        refused <= count <= events.len(),
        delivery_at(record, queue, events, stores, refused).1 is Refused,
    ensures
        delivery_at(record, queue, events, stores, count).1 is Refused
            || delivery_at(record, queue, events, stores, count).1 is Stopped,
        delivery_at(record, queue, events, stores, count).0 == delivery_at(
            record,
            queue,
            events,
            stores,
            refused,
        ).0,
    decreases count,
{
    if refused < count {
        nothing_is_told_after_a_refusal(record, queue, events, stores, refused, (count - 1) as nat);
    }
}

/// The number of movements that were taken off in a phase.
pub open spec fn taken_off(queue: Seq<Seq<char>>, phase: DeliveryPhase) -> int {
    match phase {
        DeliveryPhase::Telling { position, .. } => position as int,
        DeliveryPhase::Storing { position } => position as int,
        DeliveryPhase::Refused { position } => position as int,
        _ => queue.len() as int,
    }
}

/// The movements that are taken off are those at the beginning of the queue.
proof fn taken_off_so_far(
    record: RecordModel,
    queue: Seq<Seq<char>>,
    events: Seq<Event>,
    stores: Seq<StoreModel>,
    count: nat,
    id: Seq<char>,
)
    requires
        count <= events.len(),
        queue.len() <= usize::MAX,
    ensures
        ({
            let (current, phase) = delivery_at(record, queue, events, stores, count);
            &&& 0 <= taken_off(queue, phase) <= queue.len()
            &&& phase != DeliveryPhase::Stopped ==> (current.pending_movements.contains_key(id)
                <==> record.pending_movements.contains_key(id) && !queue.take(
                taken_off(queue, phase),
            ).contains(id))
        }),
    decreases count,
{
    delivery_history(record, queue, events, stores, count);
    if count > 0 {
        let fewer = (count - 1) as nat;
        taken_off_so_far(record, queue, events, stores, fewer, id);
        delivery_history(record, queue, events, stores, fewer);
        let phase = delivery_at(record, queue, events, stores, fewer).1;
        match phase {
            DeliveryPhase::Storing { position } => {
                let before = queue.take(position as int);
                assert(queue.take(position + 1) =~= before.push(queue[position as int]));
                push_contains(before, queue[position as int], id);
            },
            _ => {},
        }
    } else {
        assert(!queue.take(0).contains(id));
    }
}

/// A delivery that has come to an end has taken off the movements of its queue
/// and no others.
pub proof fn finished_delivery_took_off_the_queue(
    record: RecordModel,
    queue: Seq<Seq<char>>,
    events: Seq<Event>,
    stores: Seq<StoreModel>,
    count: nat,
    id: Seq<char>,
)
    requires
        count <= events.len(),
        queue.len() <= usize::MAX,
        delivery_at(record, queue, events, stores, count).1 == DeliveryPhase::Finished,
    ensures
        delivery_at(record, queue, events, stores, count).0.pending_movements.contains_key(id)
            <==> record.pending_movements.contains_key(id) && !queue.contains(id),
{
    taken_off_so_far(record, queue, events, stores, count, id);
    assert(queue.take(queue.len() as int) =~= queue);
}

/// In each phase of a delivery the action is of the movement at its position: the
/// call that is next, then the storing, and where it cannot be told the refusal.
pub proof fn delivery_acts_on_its_movement(
    record: RecordModel,
    queue: Seq<Seq<char>>,
    position: usize,
    call: usize,
)
    requires
        position < queue.len(),
    ensures
        delivery(record, queue[position as int]) matches Ok(calls) ==> {
            &&& call < calls.len() ==> delivery_action(
                record,
                queue,
                DeliveryPhase::Telling { position, call },
            ) == DeliveryModel::Tell(calls[call as int])
            &&& phase_from(record, queue, position) == (DeliveryPhase::Telling {
                position,
                call: 0,
            })
            &&& call + 1 < calls.len() ==> delivery_phase(
                record,
                queue,
                DeliveryPhase::Telling { position, call },
                Event::Done,
            ) == (DeliveryPhase::Telling { position, call: (call + 1) as usize })
            &&& call + 1 == calls.len() ==> delivery_phase(
                record,
                queue,
                DeliveryPhase::Telling { position, call },
                Event::Done,
            ) == (DeliveryPhase::Storing { position })
        },
        delivery(record, queue[position as int]) matches Err(refusal) ==> {
            &&& phase_from(record, queue, position) == (DeliveryPhase::Refused { position })
            &&& delivery_action(record, queue, DeliveryPhase::Refused { position })
                == DeliveryModel::Refuse(refusal)
        },
        delivery_action(record, queue, DeliveryPhase::Storing { position })
            == DeliveryModel::Store(queue[position as int]),
        delivery_action(record, queue, DeliveryPhase::Finished) == DeliveryModel::Finish,
        delivery_action(record, queue, DeliveryPhase::Stopped) == DeliveryModel::Stop,
        phase_from(record, Seq::empty(), 0) == DeliveryPhase::Finished,
        position + 1 == queue.len() && position < usize::MAX ==> delivery_phase(
            record,
            queue,
            DeliveryPhase::Storing { position },
            Event::Done,
        ) == DeliveryPhase::Finished,
        position + 1 < queue.len() && position + 1 <= usize::MAX ==> delivery_phase(
            record,
            queue,
            DeliveryPhase::Storing { position },
            Event::Done,
        ) == phase_from(record, queue, (position + 1) as usize),
{
}

/// The ids of a row of movements that are due stand in the order of the row.
proof fn mature_ids_are_from_the_row(
    movements: Seq<MovementModel>,
    confirmations: u32,
    tip_height: u32,
    i: int,
) -> (n: int)
    requires
        0 <= i < mature_ids(movements, confirmations, tip_height).len(),
    ensures
        0 <= n < movements.len(),
        movements[n].id == mature_ids(movements, confirmations, tip_height)[i],
        forall|m: int|
            n <= m < movements.len() ==> i < mature_ids(
                #[trigger] movements.take(m + 1),
                confirmations,
                tip_height,
            ).len(),
        i >= mature_ids(movements.take(n), confirmations, tip_height).len(),
    decreases movements.len(),
{
    let rest = movements.drop_last();
    let ids = mature_ids(rest, confirmations, tip_height);
    assert(movements.take(movements.len() as int) =~= movements);
    if i < ids.len() {
        let n = mature_ids_are_from_the_row(rest, confirmations, tip_height, i);
        assert(rest.take(n) =~= movements.take(n));
        assert forall|m: int| n <= m < movements.len() implies i < mature_ids(
            #[trigger] movements.take(m + 1),
            confirmations,
            tip_height,
        ).len() by {
            if m < rest.len() {
                assert(rest.take(m + 1) =~= movements.take(m + 1));
            } else {
                assert(movements.take(m + 1) =~= movements);
            }
        }
        n
    } else {
        let n = movements.len() - 1;
        assert(movements.take(n) =~= rest);
        assert forall|m: int| n <= m < movements.len() implies i < mature_ids(
            #[trigger] movements.take(m + 1),
            confirmations,
            tip_height,
        ).len() by {
            assert(movements.take(m + 1) =~= movements);
        }
        n
    }
}

/// The movements that are due come each once, in the order of their ids.
pub proof fn due_movements_come_once(record: RecordModel, tip_height: u32, i: int, j: int)
    requires
        record.pending_movements.dom().finite(),
        movements_keyed(record.pending_movements),
        0 <= i < j < due_movements(record, tip_height).len(),
    ensures
        text_before(due_movements(record, tip_height)[i], due_movements(record, tip_height)[j]),
{
    let pending = record.pending_movements;
    let keys = sorted_keys(pending.dom());
    let movements = sorted_values(pending);
    crate::ordered::sorted_keys_of(pending.dom());
    let depth = record.config.confirmations;
    let n = mature_ids_are_from_the_row(movements, depth, tip_height, i);
    let m = mature_ids_are_from_the_row(movements, depth, tip_height, j);
    if m < n {
        assert(movements.take(m + 1).len() <= n);
        mature_ids_grow(movements.take(n), depth, tip_height, m + 1);
        assert(movements.take(n).take(m + 1) =~= movements.take(m + 1));
    } else if m == n {
        let ids = mature_ids(movements.take(n), depth, tip_height);
        assert(movements.take(n + 1).drop_last() =~= movements.take(n));
    }
    assert(keys.to_set().contains(keys[n]));
    assert(keys.to_set().contains(keys[m]));
    assert(movements[n] == pending[keys[n]] && movements[m] == pending[keys[m]]);
}

/// A longer row has no fewer movements that are due.
proof fn mature_ids_grow(
    movements: Seq<MovementModel>,
    confirmations: u32,
    tip_height: u32,
    n: int,
)
    requires
        0 <= n <= movements.len(),
    ensures
        mature_ids(movements.take(n), confirmations, tip_height).len() <= mature_ids(
            movements,
            confirmations,
            tip_height,
        ).len(),
    decreases movements.len(),
{
    if n == movements.len() {
        assert(movements.take(n) =~= movements);
    } else {
        mature_ids_grow(movements.drop_last(), confirmations, tip_height, n);
        assert(movements.drop_last().take(n) =~= movements.take(n));
    }
}

} // verus!
