//! Which watches a descriptor must have, and how to get there.

use crate::cln::{
    add_outpoint_watch, add_script_watches, del_owned_watch, outpoint_watch_call, owned_watch_owner,
    owners_rescan_call, owners_rescan_is_asked, prefix_rescan_call, prefix_rescan_is_asked,
    removal_of, rescan_watch_owners, rescan_watch_prefix, script_watches_are_asked,
    script_watches_call, CallModel, OwnedWatch, RpcCall, WatchModel,
};
use crate::descriptor::{
    has_script, hex_text, is_script_of, script_at, DescriptorSet, ScriptModel, SetModel,
};
use crate::error::{refusal_for, refusal_of, Reason, Refusal, RefusalModel, TrackerError};
use crate::frontier::watched_end;
use crate::json::{opt_model, JsonModel};
use crate::model::{
    outpoint_owner, outpoint_owner_text, owner_prefix, owner_prefix_text, script_owner,
    script_owner_text, DescriptorRecord, DescriptorStatus, RecordModel,
};
use crate::ordered::{
    difference, models, push_contains, ranked, ranked_of, sorted_keys, sorted_set, strictly_ranked,
};
use crate::scripts::{
    descriptor_scripts, registered_scripts, validate_config, watched_scripts,
    watched_scripts_are_whole,
};
use crate::text::{begins_with, starts_with};
use vstd::prelude::*;

verus! {

/// The watch of a script of a descriptor.
pub open spec fn script_watch(name: Seq<char>, script: ScriptModel) -> WatchModel {
    WatchModel::Script {
        owner: script_owner_text(name, script.branch, script.index),
        scriptpubkey: script.scriptpubkey,
    }
}

/// The watch of an output of a descriptor.
pub open spec fn output_watch(name: Seq<char>, outpoint: Seq<char>) -> WatchModel {
    WatchModel::Outpoint { owner: outpoint_owner_text(name, outpoint), outpoint }
}

/// A record with some scripts must have a watch.
pub open spec fn is_expected(
    record: RecordModel,
    scripts: Seq<ScriptModel>,
    watch: WatchModel,
) -> bool {
    ||| exists|i: int|
        0 <= i < scripts.len() && watch == script_watch(record.config.name, #[trigger] scripts[i])
    ||| exists|key: Seq<char>| #[trigger]
        record.utxos.contains_key(key) && watch == output_watch(
            record.config.name,
            record.utxos[key].outpoint,
        )
}

/// The watches that a record with some scripts must have.
pub open spec fn expected_set(record: RecordModel, scripts: Seq<ScriptModel>) -> Set<WatchModel> {
    Set::new(|watch: WatchModel| is_expected(record, scripts, watch))
}

/// The watches that a record must have, in order.
pub fn expected_watches(record: &DescriptorRecord, descriptor: &DescriptorSet) -> (r: Result<
    Vec<OwnedWatch>,
    Reason,
>)
    ensures
        match (r, watched_scripts(record@, descriptor@)) {
            (Ok(watches), Ok(scripts)) => strictly_ranked::<OwnedWatch>(models(watches@))
                && models(watches@).to_set() == expected_set(record@, scripts),
            (Err(e), Err(refused)) => e@ == refused,
            _ => false,
        },
{
    let scripts = match descriptor_scripts(record, descriptor) {
        Err(e) => {
            return Err(e);
        },
        Ok(scripts) => scripts,
    };
    let name = record.config.name.as_str();
    let mut watches: Vec<OwnedWatch> = Vec::new();
    let mut i: usize = 0;
    while i < scripts.len()
        invariant
            i <= scripts.len(),
            name@ == record@.config.name,
            watches.len() == i,
            forall|j: int|
                0 <= j < i ==> #[trigger] watches[j]@ == script_watch(
                    name@,
                    scripts[j]@,
                ),
        decreases scripts.len() - i,
    {
        let script = &scripts[i];
        watches.push(
            OwnedWatch::Script {
                owner: script_owner(name, script.branch, script.index),
                scriptpubkey: script.scriptpubkey.clone(),
            },
        );
        i = i + 1;
    }
    let ghost keys = sorted_keys(record.utxos@.dom());
    let count = record.utxos.len();
    let mut k: usize = 0;
    while k < count
        invariant
            k <= count,
            count == keys.len(),
            count == record.utxos@.dom().len(),
            keys == sorted_keys(record.utxos@.dom()),
            name@ == record@.config.name,
            watches.len() == scripts.len() + k,
            forall|j: int|
                0 <= j < scripts.len() ==> #[trigger] watches[j]@ == script_watch(
                    name@,
                    scripts[j]@,
                ),
            forall|j: int|
                0 <= j < k ==> watches[scripts.len() + j]@ == output_watch(
                    name@,
                    record@.utxos[#[trigger] keys[j]].outpoint,
                ),
        decreases count - k,
    {
        let (key, utxo) = record.utxos.at(k);
        watches.push(
            OwnedWatch::Outpoint {
                owner: outpoint_owner(name, utxo.outpoint.as_str()),
                outpoint: utxo.outpoint.clone(),
            },
        );
        k = k + 1;
    }
    let ordered = sorted_set(&watches);
    proof {
        let all = models(watches@);
        let wanted = models(scripts@);
        assert forall|watch: WatchModel|
            all.to_set().contains(watch) <==> expected_set(record@, wanted).contains(watch) by {
            if all.contains(watch) {
                let n = choose|n: int| 0 <= n < all.len() && all[n] == watch;
                assert(watches[n]@ == watch);
                if n < wanted.len() {
                    assert(watch == script_watch(name@, wanted[n]));
                } else {
                    let key = keys[n - wanted.len()];
                    assert(keys.contains(key));
                    assert(keys.to_set().contains(key));
                    assert(record@.utxos.contains_key(key));
                }
            }
            if exists|i: int|
                0 <= i < wanted.len() && watch == script_watch(name@, #[trigger] wanted[i]) {
                let n = choose|i: int|
                    0 <= i < wanted.len() && watch == script_watch(name@, #[trigger] wanted[i]);
                assert(watches[n]@ == all[n]);
                assert(all[n] == watch);
            }
            if exists|key: Seq<char>| #[trigger]
                record@.utxos.contains_key(key) && watch == output_watch(
                    name@,
                    record@.utxos[key].outpoint,
                ) {
                let key = choose|key: Seq<char>| #[trigger]
                    record@.utxos.contains_key(key) && watch == output_watch(
                        name@,
                        record@.utxos[key].outpoint,
                    );
                assert(keys.to_set().contains(key));
                let n = choose|n: int| 0 <= n < keys.len() && keys[n] == key;
                assert(watches[wanted.len() + n]@ == all[wanted.len() + n]);
                assert(all[wanted.len() + n] == watch);
            }
        }
        assert(all.to_set() =~= expected_set(record@, wanted));
    }
    Ok(ordered)
}

/// The owners and scripts of those watches of a row that watch scripts.
pub open spec fn script_pairs(watches: Seq<WatchModel>) -> Seq<(Seq<char>, Seq<char>)>
    decreases watches.len(),
{
    if watches.len() == 0 {
        Seq::empty()
    } else {
        let rest = script_pairs(watches.drop_last());
        match watches.last() {
            WatchModel::Script { owner, scriptpubkey } => rest.push((owner, scriptpubkey)),
            _ => rest,
        }
    }
}

/// The owners and scripts of those watches of a list that watch scripts.
fn script_watch_pairs(watches: &Vec<OwnedWatch>) -> (r: Vec<(String, String)>)
    ensures
        models(r@) == script_pairs(models(watches@)),
{
    let ghost all = models(watches@);
    let mut pairs: Vec<(String, String)> = Vec::new();
    let mut i: usize = 0;
    assert(models(pairs@) =~= Seq::<(Seq<char>, Seq<char>)>::empty());
    while i < watches.len()
        invariant
            i <= watches.len(),
            all == models(watches@),
            models(pairs@) == script_pairs(all.take(i as int)),
        decreases watches.len() - i,
    {
        assert(all[i as int] == watches[i as int]@);
        assert(all.take(i + 1).drop_last() =~= all.take(i as int));
        match &watches[i] {
            OwnedWatch::Script { owner, scriptpubkey } => {
                let ghost before = models(pairs@);
                pairs.push((owner.clone(), scriptpubkey.clone()));
                assert(models(pairs@) =~= before.push((owner@, scriptpubkey@)));
            },
            _ => {},
        }
        i = i + 1;
    }
    assert(all.take(i as int) =~= all);
    pairs
}

/// The first parts of pairs.
fn pair_owners(pairs: &Vec<(String, String)>) -> (r: Vec<String>)
    ensures
        models(r@) == models(pairs@).map_values(|pair: (Seq<char>, Seq<char>)| pair.0),
{
    let mut r: Vec<String> = Vec::new();
    let mut i: usize = 0;
    while i < pairs.len()
        invariant
            i <= pairs.len(),
            r.len() == i,
            forall|j: int| 0 <= j < i ==> #[trigger] r[j]@ == pairs[j].0@,
        decreases pairs.len() - i,
    {
        r.push(pairs[i].0.clone());
        i = i + 1;
    }
    assert(models(r@) =~= models(pairs@).map_values(|pair: (Seq<char>, Seq<char>)| pair.0));
    r
}

/// The calls that register those of the first `count` watches of a row that
/// watch outputs, up to one whose output the record does not hold.
pub open spec fn restored_outputs(
    record: RecordModel,
    watches: Seq<WatchModel>,
    count: nat,
    rescan: bool,
) -> (Seq<CallModel>, Option<RefusalModel>)
    decreases count,
{
    if count == 0 {
        (Seq::empty(), None)
    } else {
        let (calls, fault) = restored_outputs(record, watches, (count - 1) as nat, rescan);
        match watches[count - 1] {
            WatchModel::Outpoint { owner, outpoint } => if fault is Some {
                (calls, fault)
            } else if record.utxos.contains_key(outpoint) {
                (
                    calls.push(
                        outpoint_watch_call(
                            owner,
                            outpoint,
                            record.utxos[outpoint].deposit_height,
                            rescan,
                        ),
                    ),
                    None,
                )
            } else {
                (calls, Some(refusal_of(TrackerError::OutpointMissing, outpoint)))
            },
            _ => (calls, fault),
        }
    }
}

/// What is to be done to the watches of a descriptor, in this order. A fault
/// is met after all the calls.
#[derive(Debug)]
pub struct WatchPlan {
    pub removals: Vec<RpcCall>,
    pub additions: Option<RpcCall>,
    pub rescan: Option<RpcCall>,
    pub outputs: Vec<RpcCall>,
    pub fault: Option<Refusal>,
}

/// What a [`WatchPlan`] stands for.
#[verifier::ext_equal]
pub struct PlanModel {
    pub removals: Seq<CallModel>,
    pub additions: Option<CallModel>,
    pub rescan: Option<CallModel>,
    pub outputs: Seq<CallModel>,
    pub fault: Option<RefusalModel>,
}

impl View for WatchPlan {
    type V = PlanModel;

    open spec fn view(&self) -> PlanModel {
        PlanModel {
            removals: models(self.removals@),
            additions: opt_model(self.additions),
            rescan: opt_model(self.rescan),
            outputs: models(self.outputs@),
            fault: opt_model(self.fault),
        }
    }
}

/// The scan that follows the restoring of script watches. While a descriptor
/// is syncing all its watches are scanned again, else only the restored ones.
pub open spec fn restoring_scan(
    record: RecordModel,
    restored: Seq<(Seq<char>, Seq<char>)>,
    rescan_missing: bool,
) -> Option<CallModel> {
    if !rescan_missing {
        None
    } else if record.status == DescriptorStatus::Syncing {
        Some(
            prefix_rescan_call(
                owner_prefix_text(record.config.name),
                record.config.birthheight,
            ),
        )
    } else {
        owners_rescan_call(
            restored.map_values(|pair: (Seq<char>, Seq<char>)| pair.0),
            record.config.birthheight,
        )
    }
}

/// What is to be done so that a record with watches has those that it must
/// have and no others.
pub open spec fn watch_plan(
    record: RecordModel,
    expected: Set<WatchModel>,
    current: Set<WatchModel>,
    rescan_missing: bool,
) -> PlanModel {
    let missing = ranked::<OwnedWatch>(expected.difference(current));
    let unexpected = ranked::<OwnedWatch>(current.difference(expected));
    let restored = script_pairs(missing);
    let (outputs, fault) = restored_outputs(record, missing, missing.len(), rescan_missing);
    PlanModel {
        removals: unexpected.map_values(|watch: WatchModel| removal_of(watch)),
        additions: script_watches_call(restored, record.config.birthheight),
        rescan: restoring_scan(record, restored, rescan_missing),
        outputs,
        fault,
    }
}

/// The calls that remove watches.
pub fn delete_owned_watches(watches: &Vec<OwnedWatch>) -> (r: Vec<RpcCall>)
    ensures
        models(r@) == models(watches@).map_values(|watch: WatchModel| removal_of(watch)),
{
    let mut r: Vec<RpcCall> = Vec::new();
    let mut i: usize = 0;
    while i < watches.len()
        invariant
            i <= watches.len(),
            r.len() == i,
            forall|j: int| 0 <= j < i ==> #[trigger] r[j]@ == removal_of(watches[j]@),
        decreases watches.len() - i,
    {
        r.push(del_owned_watch(&watches[i]));
        i = i + 1;
    }
    assert(models(r@) =~= models(watches@).map_values(|watch: WatchModel| removal_of(watch)));
    r
}

/// The calls that register the watches of a list that watch outputs, and what
/// stops them.
fn restore_outputs(record: &DescriptorRecord, watches: &Vec<OwnedWatch>, rescan: bool) -> (r: (
    Vec<RpcCall>,
    Option<Refusal>,
))
    ensures
        (models(r.0@), opt_model(r.1)) == restored_outputs(
            record@,
            models(watches@),
            watches@.len(),
            rescan,
        ),
{
    let ghost all = models(watches@);
    let mut calls: Vec<RpcCall> = Vec::new();
    let mut fault: Option<Refusal> = None;
    let mut i: usize = 0;
    assert(models(calls@) =~= Seq::<CallModel>::empty());
    while i < watches.len()
        invariant
            i <= watches.len(),
            all == models(watches@),
            (models(calls@), opt_model(fault)) == restored_outputs(
                record@,
                all,
                i as nat,
                rescan,
            ),
        decreases watches.len() - i,
    {
        assert(all[i as int] == watches[i as int]@);
        match &watches[i] {
            OwnedWatch::Outpoint { owner, outpoint } => {
                if fault.is_none() {
                    match record.utxos.get(outpoint.as_str()) {
                        None => {
                            fault = Some(
                                Refusal::of(TrackerError::OutpointMissing, outpoint.as_str()),
                            );
                        },
                        Some(utxo) => {
                            let ghost before = models(calls@);
                            let call = add_outpoint_watch(
                                owner.as_str(),
                                outpoint.as_str(),
                                utxo.deposit_height,
                                rescan,
                            );
                            calls.push(call);
                            assert(models(calls@) =~= before.push(call@));
                        },
                    }
                }
            },
            _ => {},
        }
        i = i + 1;
    }
    (calls, fault)
}

/// What a plan for watches, or its refusal, stands for.
pub open spec fn plan_model(r: Result<WatchPlan, Refusal>) -> Result<PlanModel, RefusalModel> {
    match r {
        Ok(plan) => Ok(plan@),
        Err(e) => Err(e@),
    }
}

/// What is to be done to the watches of a record on a network, given those
/// that it has.
pub open spec fn planned_watches(
    record: RecordModel,
    network: Seq<char>,
    current: Set<WatchModel>,
    rescan_missing: bool,
) -> Result<PlanModel, RefusalModel> {
    match registered_scripts(record, network) {
        Err(e) => Err(refusal_for(e, network)),
        Ok(scripts) => Ok(
            watch_plan(record, expected_set(record, scripts), current, rescan_missing),
        ),
    }
}

/// Plans what is to be done so that a descriptor has the watches that it must
/// have and no others. Where `rescan_missing` holds, history is scanned for
/// what was missing.
pub fn reconcile_watches(
    record: &DescriptorRecord,
    network: &str,
    current: &Vec<OwnedWatch>,
    rescan_missing: bool,
) -> (r: Result<WatchPlan, Refusal>)
    ensures
        plan_model(r) == planned_watches(
            record@,
            network@,
            models(current@).to_set(),
            rescan_missing,
        ),
{
    let descriptor = match validate_config(&record.config, network) {
        Err(e) => {
            return Err(e.about(network));
        },
        Ok(descriptor) => descriptor,
    };
    let expected = match expected_watches(record, &descriptor) {
        Err(e) => {
            return Err(e.about(network));
        },
        Ok(expected) => expected,
    };
    let present = sorted_set(current);
    let missing = difference(&expected, &present);
    let unexpected = difference(&present, &expected);
    proof {
        crate::ordered::ranked_are::<OwnedWatch>(
            models(missing@),
            models(expected@).to_set().difference(models(present@).to_set()),
        );
        crate::ordered::ranked_are::<OwnedWatch>(
            models(unexpected@),
            models(present@).to_set().difference(models(expected@).to_set()),
        );
    }
    let removals = delete_owned_watches(&unexpected);
    let pairs = script_watch_pairs(&missing);
    let additions = add_script_watches(&pairs, record.config.birthheight);
    let rescan = if !rescan_missing {
        None
    } else if record.status == DescriptorStatus::Syncing {
        let prefix = owner_prefix(record.config.name.as_str());
        Some(rescan_watch_prefix(prefix.as_str(), record.config.birthheight))
    } else {
        let owners = pair_owners(&pairs);
        rescan_watch_owners(&owners, record.config.birthheight)
    };
    let (outputs, fault) = restore_outputs(record, &missing, rescan_missing);
    Ok(WatchPlan { removals, additions, rescan, outputs, fault })
}

/// An owner is that of a watch of one of some descriptors.
pub open spec fn is_owned(owner: Seq<char>, names: Seq<Seq<char>>) -> bool {
    exists|i: int|
        0 <= i < names.len() && begins_with(owner, owner_prefix_text(#[trigger] names[i]))
}

/// The calls that remove those watches of a row that belong to none of some
/// descriptors.
pub open spec fn orphan_removals(
    watches: Seq<WatchModel>,
    names: Seq<Seq<char>>,
) -> Seq<CallModel>
    decreases watches.len(),
{
    if watches.len() == 0 {
        Seq::empty()
    } else {
        let rest = orphan_removals(watches.drop_last(), names);
        if is_owned(watches.last().owner(), names) {
            rest
        } else {
            rest.push(removal_of(watches.last()))
        }
    }
}

/// Whether an owner is that of a watch of one of some descriptors.
fn owned_by_any(owner: &str, prefixes: &Vec<String>) -> (r: bool)
    ensures
        r == exists|i: int|
            0 <= i < prefixes.len() && begins_with(owner@, #[trigger] prefixes[i]@),
{
    let mut i: usize = 0;
    while i < prefixes.len()
        invariant
            i <= prefixes.len(),
            forall|j: int| 0 <= j < i ==> !begins_with(owner@, #[trigger] prefixes[j]@),
        decreases prefixes.len() - i,
    {
        if starts_with(owner, prefixes[i].as_str()) {
            return true;
        }
        i = i + 1;
    }
    false
}

/// The calls that remove the watches of tracker that belong to no descriptor.
pub fn remove_orphaned_watches(watches: &Vec<OwnedWatch>, names: &Vec<String>) -> (r: Vec<RpcCall>)
    ensures
        models(r@) == orphan_removals(models(watches@), models(names@)),
{
    let ghost owners = models(names@);
    let mut prefixes: Vec<String> = Vec::new();
    let mut n: usize = 0;
    while n < names.len()
        invariant
            n <= names.len(),
            prefixes.len() == n,
            forall|j: int|
                0 <= j < n ==> #[trigger] prefixes[j]@ == owner_prefix_text(names[j]@),
        decreases names.len() - n,
    {
        prefixes.push(owner_prefix(names[n].as_str()));
        n = n + 1;
    }
    let ghost all = models(watches@);
    let mut calls: Vec<RpcCall> = Vec::new();
    let mut i: usize = 0;
    assert(models(calls@) =~= Seq::<CallModel>::empty());
    while i < watches.len()
        invariant
            i <= watches.len(),
            all == models(watches@),
            owners == models(names@),
            prefixes.len() == names.len(),
            forall|j: int|
                0 <= j < names.len() ==> #[trigger] prefixes[j]@ == owner_prefix_text(names[j]@),
            models(calls@) == orphan_removals(all.take(i as int), owners),
        decreases watches.len() - i,
    {
        let watch = &watches[i];
        assert(all[i as int] == watch@);
        assert(all.take(i + 1).drop_last() =~= all.take(i as int));
        let owner = owned_watch_owner(watch);
        let owned = owned_by_any(owner.as_str(), &prefixes);
        proof {
            if owned {
                let j = choose|j: int|
                    0 <= j < prefixes.len() && begins_with(owner@, #[trigger] prefixes[j]@);
                assert(begins_with(owner@, owner_prefix_text(owners[j])));
            } else {
                assert forall|j: int| 0 <= j < owners.len() implies !begins_with(
                    owner@,
                    owner_prefix_text(#[trigger] owners[j]),
                ) by {
                    assert(!begins_with(owner@, prefixes[j]@));
                }
            }
        }
        if !owned {
            let ghost before = models(calls@);
            let removal = del_owned_watch(watch);
            calls.push(removal);
            assert(models(calls@) =~= before.push(removal@));
        }
        i = i + 1;
    }
    assert(all.take(i as int) =~= all);
    calls
}

/// A plan leads from any watches to those that must be there.
pub proof fn plan_leads_to_expected(expected: Set<WatchModel>, current: Set<WatchModel>)
    ensures
        current.difference(current.difference(expected)).union(expected.difference(current))
            == expected,
{
    assert(current.difference(current.difference(expected)).union(expected.difference(current))
        =~= expected);
}

/// Where the watches are already those that must be there, a plan removes and
/// registers nothing, and scans again only while the descriptor is syncing.
pub proof fn reconciled_watches_stay(
    record: RecordModel,
    expected: Set<WatchModel>,
    rescan_missing: bool,
)
    ensures
        ({
            let plan = watch_plan(record, expected, expected, rescan_missing);
            &&& plan.removals.len() == 0
            &&& plan.additions is None
            &&& plan.outputs.len() == 0
            &&& plan.fault is None
            &&& plan.rescan is Some <==> rescan_missing && record.status
                == DescriptorStatus::Syncing
        }),
{
    let none = expected.difference(expected);
    let empty = Seq::<WatchModel>::empty();
    assert(none =~= empty.to_set());
    crate::ordered::ranked_are::<OwnedWatch>(empty, none);
}

/// Every watch that a descriptor must have carries its prefix, so that a
/// listing by that prefix shows it.
pub proof fn expected_watches_carry_the_prefix(
    record: RecordModel,
    scripts: Seq<ScriptModel>,
    watch: WatchModel,
)
    requires
        expected_set(record, scripts).contains(watch),
    ensures
        begins_with(watch.owner(), owner_prefix_text(record.config.name)),
{
    let prefix = owner_prefix_text(record.config.name);
    match watch {
        WatchModel::Script { owner, .. } => {
            let i = choose|i: int|
                0 <= i < scripts.len() && watch == script_watch(
                    record.config.name,
                    #[trigger] scripts[i],
                );
            assert(owner.take(prefix.len() as int) =~= prefix);
        },
        WatchModel::Outpoint { owner, .. } => {
            assert(owner.take(prefix.len() as int) =~= prefix);
        },
        WatchModel::Blockdepth { .. } => {},
    }
}

/// The outputs of a record are kept under their outpoints.
pub open spec fn outputs_keyed(record: RecordModel) -> bool {
    forall|key: Seq<char>| #[trigger]
        record.utxos.contains_key(key) ==> record.utxos[key].outpoint == key
}

/// No watch of an output is left unrestored where the outputs of the record
/// are kept under their outpoints.
pub proof fn keyed_outputs_are_restored(
    record: RecordModel,
    scripts: Seq<ScriptModel>,
    watches: Seq<WatchModel>,
    count: nat,
    rescan: bool,
)
    requires
        outputs_keyed(record),
        count <= watches.len(),
        forall|i: int|
            0 <= i < watches.len() ==> expected_set(record, scripts).contains(#[trigger] watches[i]),
    ensures
        restored_outputs(record, watches, count, rescan).1 is None,
    decreases count,
{
    if count > 0 {
        keyed_outputs_are_restored(record, scripts, watches, (count - 1) as nat, rescan);
        assert(is_expected(record, scripts, watches[count - 1]));
    }
}

/// A descriptor must have a watch for the script of every branch at each index
/// below its end, under the owner that names the place, one for each of its
/// outputs, under the owner that names the output, and no others.
pub proof fn watches_cover_scripts_and_outputs(
    record: RecordModel,
    set: SetModel,
    watch: WatchModel,
    key: Seq<char>,
)
    requires
        watched_scripts(record, set) is Ok,
        set.branches <= u32::MAX,
    ensures
        ({
            let name = record.config.name;
            let expected = expected_set(record, watched_scripts(record, set)->Ok_0);
            &&& forall|b: u32, i: u32|
                b < set.branches && i < watched_end(record, b) && (set.ranged || i == 0)
                    ==> #[trigger] expected.contains(
                    WatchModel::Script {
                        owner: script_owner_text(name, b, i),
                        scriptpubkey: hex_text(script_at(set.text, b, i)->Ok_0),
                    },
                )
            &&& record.utxos.contains_key(key) ==> expected.contains(
                WatchModel::Outpoint {
                    owner: outpoint_owner_text(name, record.utxos[key].outpoint),
                    outpoint: record.utxos[key].outpoint,
                },
            )
            &&& expected.contains(watch) ==> match watch {
                WatchModel::Script { owner, scriptpubkey } => exists|b: u32, i: u32|
                    b < set.branches && i < watched_end(record, b) && owner
                        == #[trigger] script_owner_text(name, b, i) && scriptpubkey == hex_text(
                        script_at(set.text, b, i)->Ok_0,
                    ),
                WatchModel::Outpoint { owner, outpoint } => exists|o: Seq<char>| #[trigger]
                    record.utxos.contains_key(o) && record.utxos[o].outpoint == outpoint && owner
                        == outpoint_owner_text(name, outpoint),
                WatchModel::Blockdepth { .. } => false,
            }
        }),
{
    let name = record.config.name;
    let scripts = watched_scripts(record, set)->Ok_0;
    let expected = expected_set(record, scripts);
    watched_scripts_are_whole(record, set);
    assert forall|b: u32, i: u32|
        b < set.branches && i < watched_end(record, b) && (set.ranged || i
            == 0) implies #[trigger] expected.contains(
        WatchModel::Script {
            owner: script_owner_text(name, b, i),
            scriptpubkey: hex_text(script_at(set.text, b, i)->Ok_0),
        },
    ) by {
        assert(has_script(scripts, b, i));
        let k = choose|k: int|
            0 <= k < scripts.len() && (#[trigger] scripts[k]).branch == b && scripts[k].index == i;
        assert(is_script_of(scripts[k], set.text, b, i));
        assert(script_watch(name, scripts[k]) == (WatchModel::Script {
            owner: script_owner_text(name, b, i),
            scriptpubkey: hex_text(script_at(set.text, b, i)->Ok_0),
        }));
    }
    if record.utxos.contains_key(key) {
        assert(is_expected(record, scripts, output_watch(name, record.utxos[key].outpoint)));
    }
    if expected.contains(watch) {
        match watch {
            WatchModel::Script { owner, scriptpubkey } => {
                let k = choose|k: int|
                    0 <= k < scripts.len() && watch == script_watch(name, #[trigger] scripts[k]);
                assert(is_script_of(
                    scripts[k],
                    set.text,
                    scripts[k].branch,
                    scripts[k].index,
                ));
                assert(owner == script_owner_text(name, scripts[k].branch, scripts[k].index));
            },
            WatchModel::Outpoint { owner, outpoint } => {
                let o = choose|o: Seq<char>| #[trigger]
                    record.utxos.contains_key(o) && watch == output_watch(
                        name,
                        record.utxos[o].outpoint,
                    );
                assert(record.utxos.contains_key(o));
            },
            WatchModel::Blockdepth { .. } => {},
        }
    }
}

/// The pairs of a row are those of its script watches.
proof fn script_pairs_are(watches: Seq<WatchModel>, owner: Seq<char>, scriptpubkey: Seq<char>)
    ensures
        script_pairs(watches).contains((owner, scriptpubkey)) <==> watches.contains(
            WatchModel::Script { owner, scriptpubkey },
        ),
    decreases watches.len(),
{
    let wanted = WatchModel::Script { owner, scriptpubkey };
    if watches.len() > 0 {
        let rest = watches.drop_last();
        let last = watches.last();
        script_pairs_are(rest, owner, scriptpubkey);
        assert(watches =~= rest.push(last));
        push_contains(rest, last, wanted);
        match last {
            WatchModel::Script { owner: o, scriptpubkey: t } => {
                push_contains(script_pairs(rest), (o, t), (owner, scriptpubkey));
            },
            _ => {},
        }
    }
}

/// The calls that register watches of outputs are for the outputs of a row.
proof fn restored_outputs_are(
    record: RecordModel,
    watches: Seq<WatchModel>,
    count: nat,
    rescan: bool,
    n: int,
)
    requires
        count <= watches.len(),
        0 <= n < count,
        restored_outputs(record, watches, count, rescan).1 is None,
    ensures
        watches[n] matches WatchModel::Outpoint { owner, outpoint } ==> record.utxos.contains_key(
            outpoint,
        ) && restored_outputs(record, watches, count, rescan).0.contains(
            outpoint_watch_call(owner, outpoint, record.utxos[outpoint].deposit_height, rescan),
        ),
    decreases count,
{
    let fewer = (count - 1) as nat;
    let before = restored_outputs(record, watches, fewer, rescan).0;
    let after = restored_outputs(record, watches, count, rescan).0;
    if n == count - 1 {
        if watches[n] is Outpoint {
            assert(after.last() == outpoint_watch_call(
                watches[n]->Outpoint_owner,
                watches[n]->Outpoint_outpoint,
                record.utxos[watches[n]->Outpoint_outpoint].deposit_height,
                rescan,
            ));
        }
    } else {
        restored_outputs_are(record, watches, fewer, rescan, n);
        if watches[n] is Outpoint {
            let call = outpoint_watch_call(
                watches[n]->Outpoint_owner,
                watches[n]->Outpoint_outpoint,
                record.utxos[watches[n]->Outpoint_outpoint].deposit_height,
                rescan,
            );
            let k = choose|k: int| 0 <= k < before.len() && before[k] == call;
            assert(after[k] == call);
        }
    }
}

/// A plan removes each watch that is there and must not be.
pub proof fn plan_removes_what_must_not_be(
    record: RecordModel,
    expected: Set<WatchModel>,
    current: Set<WatchModel>,
    rescan_missing: bool,
    watch: WatchModel,
)
    requires
        current.finite(),
        current.contains(watch),
        !expected.contains(watch),
    ensures
        watch_plan(record, expected, current, rescan_missing).removals.contains(removal_of(watch)),
{
    let removals = watch_plan(record, expected, current, rescan_missing).removals;
    let excess = current.difference(expected);
    ranked_of::<OwnedWatch>(excess);
    let unexpected = ranked::<OwnedWatch>(excess);
    assert(unexpected.to_set().contains(watch));
    let k = choose|k: int| 0 <= k < unexpected.len() && unexpected[k] == watch;
    assert(removals[k] == removal_of(watch));
}

/// A plan removes nothing that must be there.
pub proof fn plan_keeps_what_must_be(
    record: RecordModel,
    expected: Set<WatchModel>,
    current: Set<WatchModel>,
    rescan_missing: bool,
    k: int,
)
    requires
        current.finite(),
        0 <= k < watch_plan(record, expected, current, rescan_missing).removals.len(),
    ensures
        exists|watch: WatchModel|
            current.contains(watch) && !expected.contains(watch) && watch_plan(
                record,
                expected,
                current,
                rescan_missing,
            ).removals[k] == #[trigger] removal_of(watch),
{
    let excess = current.difference(expected);
    ranked_of::<OwnedWatch>(excess);
    let unexpected = ranked::<OwnedWatch>(excess);
    assert(unexpected.contains(unexpected[k]));
    assert(unexpected.to_set().contains(unexpected[k]));
    assert(watch_plan(record, expected, current, rescan_missing).removals[k] == removal_of(
        unexpected[k],
    ));
}

/// A script watch that is missing is asked for, from the birth of the descriptor
/// on.
pub proof fn plan_asks_for_missing_scripts(
    record: RecordModel,
    expected: Set<WatchModel>,
    current: Set<WatchModel>,
    rescan_missing: bool,
    owner: Seq<char>,
    scriptpubkey: Seq<char>,
)
    requires
        expected.finite(),
        expected.contains(WatchModel::Script { owner, scriptpubkey }),
        !current.contains(WatchModel::Script { owner, scriptpubkey }),
    ensures
        ({
            let additions = watch_plan(record, expected, current, rescan_missing).additions;
            &&& additions is Some
            &&& additions->Some_0.method == "addscriptpubkeywatches"@
            &&& additions->Some_0.params.number_field("start_block"@) == Some(
                record.config.birthheight as u64,
            )
            &&& additions->Some_0.params.list_field("watches"@) is Some
            &&& lists_watch(
                additions->Some_0.params.list_field("watches"@)->Some_0,
                owner,
                scriptpubkey,
            )
        }),
{
    let lacking = expected.difference(current);
    ranked_of::<OwnedWatch>(lacking);
    let missing = ranked::<OwnedWatch>(lacking);
    let pairs = script_pairs(missing);
    assert(missing.to_set().contains(WatchModel::Script { owner, scriptpubkey }));
    script_pairs_are(missing, owner, scriptpubkey);
    let k = choose|k: int| 0 <= k < pairs.len() && pairs[k] == (owner, scriptpubkey);
    script_watches_are_asked(pairs, record.config.birthheight, k);
    let additions = watch_plan(record, expected, current, rescan_missing).additions;
    let items = additions->Some_0.params.list_field("watches"@)->Some_0;
    assert(items[k].text_field("owner"@) == Some(owner));
    assert(items[k].text_field("scriptpubkey"@) == Some(scriptpubkey));
}

/// A list of script watches has one of a script for an owner.
pub open spec fn lists_watch(
    items: Seq<JsonModel>,
    owner: Seq<char>,
    scriptpubkey: Seq<char>,
) -> bool {
    exists|k: int|
        0 <= k < items.len() && (#[trigger] items[k]).text_field("owner"@) == Some(owner)
            && items[k].text_field("scriptpubkey"@) == Some(scriptpubkey)
}

/// A watch of an output that is missing is asked for, from the block of the output
/// on.
pub proof fn plan_asks_for_missing_outputs(
    record: RecordModel,
    expected: Set<WatchModel>,
    current: Set<WatchModel>,
    rescan_missing: bool,
    owner: Seq<char>,
    outpoint: Seq<char>,
)
    requires
        expected.finite(),
        expected.contains(WatchModel::Outpoint { owner, outpoint }),
        !current.contains(WatchModel::Outpoint { owner, outpoint }),
        watch_plan(record, expected, current, rescan_missing).fault is None,
    ensures
        record.utxos.contains_key(outpoint),
        watch_plan(record, expected, current, rescan_missing).outputs.contains(
            outpoint_watch_call(
                owner,
                outpoint,
                record.utxos[outpoint].deposit_height,
                rescan_missing,
            ),
        ),
{
    let lacking = expected.difference(current);
    ranked_of::<OwnedWatch>(lacking);
    let missing = ranked::<OwnedWatch>(lacking);
    let watch = WatchModel::Outpoint { owner, outpoint };
    assert(missing.to_set().contains(watch));
    let n = choose|n: int| 0 <= n < missing.len() && missing[n] == watch;
    restored_outputs_are(record, missing, missing.len(), rescan_missing, n);
}

/// What is missing is scanned for only where that is asked: a syncing descriptor
/// has all its watches scanned for from its birth, another each script that was
/// missing.
pub proof fn missing_scripts_are_scanned(
    record: RecordModel,
    restored: Seq<(Seq<char>, Seq<char>)>,
    rescan_missing: bool,
    k: int,
)
    ensures
        restoring_scan(record, restored, rescan_missing) is Some ==> rescan_missing,
        rescan_missing && record.status == DescriptorStatus::Syncing ==> {
            let call = restoring_scan(record, restored, rescan_missing)->Some_0;
            &&& restoring_scan(record, restored, rescan_missing) is Some
            &&& call.method == "rescanwatchset"@
            &&& call.params.text_field("owner_prefix"@) == Some(
                owner_prefix_text(record.config.name),
            )
            &&& call.params.number_field("start_block"@) == Some(record.config.birthheight as u64)
        },
        rescan_missing && record.status != DescriptorStatus::Syncing && 0 <= k < restored.len()
            ==> {
            let call = restoring_scan(record, restored, rescan_missing)->Some_0;
            let items = call.params.list_field("owners"@)->Some_0;
            &&& restoring_scan(record, restored, rescan_missing) is Some
            &&& call.method == "rescanwatchset"@
            &&& call.params.list_field("owners"@) is Some
            &&& call.params.number_field("start_block"@) == Some(record.config.birthheight as u64)
            &&& items.len() == restored.len()
            &&& items[k] == JsonModel::Text(restored[k].0)
        },
{
    prefix_rescan_is_asked(owner_prefix_text(record.config.name), record.config.birthheight);
    owners_rescan_is_asked(
        restored.map_values(|pair: (Seq<char>, Seq<char>)| pair.0),
        record.config.birthheight,
        k,
    );
}

/// Only watches that belong to no known descriptor are removed as orphans.
pub proof fn only_orphans_are_removed(watches: Seq<WatchModel>, names: Seq<Seq<char>>, k: int)
    requires
        0 <= k < orphan_removals(watches, names).len(),
    ensures
        exists|i: int|
            0 <= i < watches.len() && orphan_removals(watches, names)[k] == removal_of(
                #[trigger] watches[i],
            ) && forall|n: int|
                0 <= n < names.len() ==> !begins_with(
                    watches[i].owner(),
                    owner_prefix_text(#[trigger] names[n]),
                ),
    decreases watches.len(),
{
    let rest = watches.drop_last();
    let before = orphan_removals(rest, names);
    if k < before.len() {
        only_orphans_are_removed(rest, names, k);
        let i = choose|i: int|
            0 <= i < rest.len() && before[k] == removal_of(#[trigger] rest[i]) && forall|n: int|
                0 <= n < names.len() ==> !begins_with(
                    rest[i].owner(),
                    owner_prefix_text(#[trigger] names[n]),
                );
        assert(watches[i] == rest[i]);
    } else {
        let i = watches.len() - 1;
        assert(watches[i] == watches.last());
        assert forall|n: int| 0 <= n < names.len() implies !begins_with(
            watches[i].owner(),
            owner_prefix_text(#[trigger] names[n]),
        ) by {}
    }
}

/// What is planned for a descriptor is planned for the scripts of its own record,
/// and nothing is where these cannot be derived.
pub proof fn plan_is_of_the_record(
    record: RecordModel,
    network: Seq<char>,
    current: Set<WatchModel>,
    rescan_missing: bool,
)
    ensures
        match registered_scripts(record, network) {
            Ok(scripts) => planned_watches(record, network, current, rescan_missing) == Ok::<
                PlanModel,
                RefusalModel,
            >(watch_plan(record, expected_set(record, scripts), current, rescan_missing)),
            Err(_) => planned_watches(record, network, current, rescan_missing) is Err,
        },
{
}

} // verus!
