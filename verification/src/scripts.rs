//! The scripts of the registered descriptors.

use crate::descriptor::{
    accepted_descriptor_is_sound, branch_range_is_whole, branch_range_result, checked_set,
    has_script, has_wildcard, is_script_of, script_at, scripts_model, DerivedScript, DescriptorSet,
    ScriptModel, SetModel,
};
use crate::error::{
    plain, refusal_for, refusal_of, Reason, ReasonModel, Refusal, RefusalModel, TrackerError,
};
use crate::frontier::{branch_range_end, watched_end};
use crate::model::{
    confirmations_fault, lookahead_fault, name_fault, validate_confirmations, validate_lookahead,
    validate_name, ConfigModel, DescriptorConfig, DescriptorRecord, RecordModel,
};
use crate::ordered::{models, sorted_keys, TextMap};
use crate::text::same_text;
use vstd::hash_set::StringHashSet;
use vstd::prelude::*;

verus! {

/// What is made of a configuration on a network.
pub open spec fn config_set(config: ConfigModel, network: Seq<char>) -> Result<
    SetModel,
    ReasonModel,
> {
    if name_fault(config.name) is Some {
        Err(plain(name_fault(config.name)->Some_0))
    } else if lookahead_fault(config.lookahead) is Some {
        Err(plain(lookahead_fault(config.lookahead)->Some_0))
    } else if confirmations_fault(config.confirmations) is Some {
        Err(plain(confirmations_fault(config.confirmations)->Some_0))
    } else {
        match checked_set(config.descriptor, network) {
            Err(e) => Err(e),
            Ok(set) => if !set.ranged && config.lookahead != 1 {
                Err(plain(TrackerError::StaticLookahead))
            } else {
                Ok(set)
            },
        }
    }
}

/// Accepts a configuration whose name, bounds and descriptor are valid.
pub fn validate_config(config: &DescriptorConfig, network: &str) -> (r: Result<
    DescriptorSet,
    Reason,
>)
    ensures
        crate::descriptor::set_result(r) == config_set(config@, network@),
{
    match validate_name(config.name.as_str()) {
        Err(e) => {
            return Err(Reason::of(e));
        },
        Ok(_) => {},
    }
    match validate_lookahead(config.lookahead) {
        Err(e) => {
            return Err(Reason::of(e));
        },
        Ok(_) => {},
    }
    match validate_confirmations(config.confirmations) {
        Err(e) => {
            return Err(Reason::of(e));
        },
        Ok(_) => {},
    }
    match DescriptorSet::parse_checked(config.descriptor.as_str(), network) {
        Err(e) => Err(e),
        Ok(set) => {
            if !set.is_ranged() && config.lookahead != 1 {
                Err(Reason::of(TrackerError::StaticLookahead))
            } else {
                Ok(set)
            }
        },
    }
}

/// The scripts that a record watches on its first `count` branches, or the
/// first refusal.
pub open spec fn watched_scripts_upto(record: RecordModel, set: SetModel, count: nat) -> Result<
    Seq<ScriptModel>,
    ReasonModel,
>
    decreases count,
{
    if count == 0 {
        Ok(Seq::empty())
    } else {
        let branch = (count - 1) as u32;
        match watched_scripts_upto(record, set, (count - 1) as nat) {
            Err(e) => Err(e),
            Ok(scripts) => match branch_range_result(set, branch, 0, watched_end(record, branch)) {
                Err(e) => Err(e),
                Ok(more) => Ok(scripts + more),
            },
        }
    }
}

/// The scripts that a record watches.
pub open spec fn watched_scripts(record: RecordModel, set: SetModel) -> Result<
    Seq<ScriptModel>,
    ReasonModel,
> {
    watched_scripts_upto(record, set, set.branches)
}

/// What was refused for the first branches is refused for more of them.
proof fn refused_script_stays(record: RecordModel, set: SetModel, count: nat, more: nat)
    requires
        count <= more,
        watched_scripts_upto(record, set, count) is Err,
    ensures
        watched_scripts_upto(record, set, more) == watched_scripts_upto(record, set, count),
    decreases more,
{
    if count < more {
        refused_script_stays(record, set, count, (more - 1) as nat);
    }
}

/// The scripts that a record watches, branch by branch.
pub fn descriptor_scripts(record: &DescriptorRecord, descriptor: &DescriptorSet) -> (r: Result<
    Vec<DerivedScript>,
    Reason,
>)
    ensures
        scripts_model(r) == watched_scripts(record@, descriptor@),
{
    let count = descriptor.branch_count() as u32;
    let mut scripts: Vec<DerivedScript> = Vec::new();
    let mut branch: u32 = 0;
    assert(models(scripts@) =~= Seq::<ScriptModel>::empty());
    while branch < count
        invariant
            branch <= count,
            count == descriptor@.branches,
            Ok::<Seq<ScriptModel>, ReasonModel>(models(scripts@)) == watched_scripts_upto(
                record@,
                descriptor@,
                branch as nat,
            ),
        decreases count - branch,
    {
        match descriptor.derive_branch_range(branch, 0, branch_range_end(record, branch)) {
            Err(e) => {
                proof {
                    refused_script_stays(
                        record@,
                        descriptor@,
                        (branch + 1) as nat,
                        count as nat,
                    );
                }
                return Err(e);
            },
            Ok(more) => {
                let ghost before = models(scripts@);
                let mut more = more;
                let ghost added = more@;
                scripts.append(&mut more);
                assert(models(scripts@) =~= before + models(added));
            },
        }
        branch = branch + 1;
    }
    Ok(scripts)
}

/// One of the scripts is among the texts.
pub open spec fn scripts_meet(scripts: Seq<ScriptModel>, texts: Set<Seq<char>>) -> bool {
    exists|i: int| 0 <= i < scripts.len() && texts.contains((#[trigger] scripts[i]).scriptpubkey)
}

/// The texts of scripts.
pub open spec fn script_texts(scripts: Seq<ScriptModel>) -> Set<Seq<char>> {
    scripts.map_values(|s: ScriptModel| s.scriptpubkey).to_set()
}

/// The scripts that a record watches on a network.
pub open spec fn registered_scripts(record: RecordModel, network: Seq<char>) -> Result<
    Seq<ScriptModel>,
    ReasonModel,
> {
    match config_set(record.config, network) {
        Err(e) => Err(e),
        Ok(set) => watched_scripts(record, set),
    }
}

/// Why scripts cannot be watched for a descriptor beside the records of
/// `keys`, where they cannot.
pub open spec fn overlap_among(
    candidate: Seq<char>,
    texts: Set<Seq<char>>,
    records: Map<Seq<char>, RecordModel>,
    keys: Seq<Seq<char>>,
    network: Seq<char>,
) -> Option<RefusalModel>
    decreases keys.len(),
{
    if keys.len() == 0 {
        None
    } else {
        let record = records[keys[0]];
        let rest = overlap_among(candidate, texts, records, keys.drop_first(), network);
        if record.config.name == candidate {
            rest
        } else {
            match registered_scripts(record, network) {
                Err(e) => Some(refusal_for(e, network)),
                Ok(scripts) => if scripts_meet(scripts, texts) {
                    Some(refusal_of(TrackerError::Overlap, record.config.name))
                } else {
                    rest
                },
            }
        }
    }
}

/// Why scripts cannot be watched for a descriptor beside the other records,
/// where they cannot: one of the others watches one of the scripts.
pub open spec fn overlap_refusal(
    candidate: Seq<char>,
    scripts: Seq<ScriptModel>,
    records: Map<Seq<char>, RecordModel>,
    network: Seq<char>,
) -> Option<RefusalModel> {
    overlap_among(candidate, script_texts(scripts), records, sorted_keys(records.dom()), network)
}

/// The texts of scripts.
fn collect_texts(scripts: &Vec<DerivedScript>) -> (r: StringHashSet)
    ensures
        r@ == script_texts(models(scripts@)),
{
    let mut texts = StringHashSet::new();
    let ghost all = models(scripts@).map_values(|s: ScriptModel| s.scriptpubkey);
    let mut i: usize = 0;
    assert(all.take(0).to_set() =~= Set::<Seq<char>>::empty());
    while i < scripts.len()
        invariant
            i <= scripts.len(),
            all == models(scripts@).map_values(|s: ScriptModel| s.scriptpubkey),
            texts@ == all.take(i as int).to_set(),
        decreases scripts.len() - i,
    {
        texts.insert(scripts[i].scriptpubkey.clone());
        proof {
            let before = all.take(i as int);
            let after = all.take(i + 1);
            assert(after =~= before.push(all[i as int]));
            assert forall|t: Seq<char>| after.to_set().contains(t) == before.to_set().insert(
                all[i as int],
            ).contains(t) by {
                crate::ordered::push_contains(before, all[i as int], t);
            }
            assert(after.to_set() =~= before.to_set().insert(all[i as int]));
        }
        i = i + 1;
    }
    assert(all.take(all.len() as int) =~= all);
    texts
}

/// Whether one of the scripts is among the texts.
fn any_script_in(scripts: &Vec<DerivedScript>, texts: &StringHashSet) -> (r: bool)
    ensures
        r == scripts_meet(models(scripts@), texts@),
{
    let ghost all = models(scripts@);
    let mut i: usize = 0;
    while i < scripts.len()
        invariant
            i <= scripts.len(),
            all == models(scripts@),
            forall|j: int| 0 <= j < i ==> !texts@.contains((#[trigger] all[j]).scriptpubkey),
        decreases scripts.len() - i,
    {
        if texts.contains(scripts[i].scriptpubkey.as_str()) {
            assert(texts@.contains(all[i as int].scriptpubkey));
            return true;
        }
        i = i + 1;
    }
    false
}

/// Refuses scripts of which another descriptor watches one.
pub fn ensure_no_script_overlap(
    candidate_name: &str,
    scripts: &Vec<DerivedScript>,
    records: &TextMap<DescriptorRecord>,
    network: &str,
) -> (r: Result<(), Refusal>)
    ensures
        match r {
            Ok(_) => overlap_refusal(candidate_name@, models(scripts@), records@, network@) is None,
            Err(refusal) => overlap_refusal(candidate_name@, models(scripts@), records@, network@)
                == Some(refusal@),
        },
{
    let texts = collect_texts(scripts);
    let count = records.len();
    let ghost keys = sorted_keys(records@.dom());
    let mut i: usize = 0;
    assert(keys.skip(0) =~= keys);
    while i < count
        invariant
            i <= count,
            count == keys.len(),
            count == records@.dom().len(),
            keys == sorted_keys(records@.dom()),
            texts@ == script_texts(models(scripts@)),
            overlap_refusal(candidate_name@, models(scripts@), records@, network@)
                == overlap_among(
                candidate_name@,
                texts@,
                records@,
                keys.skip(i as int),
                network@,
            ),
        decreases count - i,
    {
        let (key, record) = records.at(i);
        assert(keys.skip(i as int)[0] == key@);
        assert(keys.skip(i as int).drop_first() =~= keys.skip(i + 1));
        if !same_text(record.config.name.as_str(), candidate_name) {
            match validate_config(&record.config, network) {
                Err(e) => {
                    return Err(e.about(network));
                },
                Ok(descriptor) => match descriptor_scripts(record, &descriptor) {
                    Err(e) => {
                        return Err(e.about(network));
                    },
                    Ok(watched) => {
                        if any_script_in(&watched, &texts) {
                            return Err(
                                Refusal::of(TrackerError::Overlap, record.config.name.as_str()),
                            );
                        }
                    },
                },
            }
        }
        i = i + 1;
    }
    Ok(())
}

/// The scripts of the first branches of a record.
proof fn watched_upto_is_whole(record: RecordModel, set: SetModel, count: nat)
    requires
        count <= set.branches,
        count <= u32::MAX,
    ensures
        watched_scripts_upto(record, set, count) matches Ok(scripts) ==> {
            &&& forall|k: int|
                0 <= k < scripts.len() ==> is_script_of(
                    #[trigger] scripts[k],
                    set.text,
                    scripts[k].branch,
                    scripts[k].index,
                ) && scripts[k].branch < count && scripts[k].index < watched_end(
                    record,
                    scripts[k].branch,
                ) && (set.ranged || scripts[k].index == 0)
            &&& forall|b: u32, i: u32|
                b < count && i < watched_end(record, b) && (set.ranged || i == 0) ==> has_script(
                    scripts,
                    b,
                    i,
                )
        },
        (forall|b: u32, i: u32|
            b < count && i < watched_end(record, b) && (set.ranged || i == 0) ==> (
            #[trigger] script_at(set.text, b, i)) is Ok) ==> watched_scripts_upto(
            record,
            set,
            count,
        ) is Ok,
    decreases count,
{
    if count > 0 {
        let fewer = (count - 1) as nat;
        let last = (count - 1) as u32;
        let end = watched_end(record, last);
        watched_upto_is_whole(record, set, fewer);
        branch_range_is_whole(set, last, 0, end);
        match watched_scripts_upto(record, set, count) {
            Ok(scripts) => {
                let before = watched_scripts_upto(record, set, fewer)->Ok_0;
                let more = branch_range_result(set, last, 0, end)->Ok_0;
                assert(scripts == before + more);
                assert forall|k: int| 0 <= k < scripts.len() implies is_script_of(
                    #[trigger] scripts[k],
                    set.text,
                    scripts[k].branch,
                    scripts[k].index,
                ) && scripts[k].branch < count && scripts[k].index < watched_end(
                    record,
                    scripts[k].branch,
                ) && (set.ranged || scripts[k].index == 0) by {
                    if k < before.len() {
                        assert(scripts[k] == before[k]);
                    } else {
                        let j = k - before.len();
                        assert(scripts[k] == more[j]);
                        assert(is_script_of(more[j], set.text, last, (0 + j) as u32));
                    }
                }
                assert forall|b: u32, i: u32|
                    b < count && i < watched_end(record, b) && (set.ranged || i
                        == 0) implies has_script(scripts, b, i) by {
                    if b < fewer {
                        assert(has_script(before, b, i));
                        let k = choose|k: int|
                            0 <= k < before.len() && (#[trigger] before[k]).branch == b
                                && before[k].index == i;
                        assert(scripts[k] == before[k]);
                    } else {
                        assert(is_script_of(more[i as int], set.text, last, (0 + i) as u32));
                        assert(scripts[before.len() + i] == more[i as int]);
                    }
                }
            },
            Err(_) => {},
        }
    }
}

/// A record watches on every branch the script at each index below the end of
/// that branch, and no other script; without a wildcard that is the script at
/// index zero. Scripts that can be derived are not refused.
pub proof fn watched_scripts_are_whole(record: RecordModel, set: SetModel)
    requires
        set.branches <= u32::MAX,
    ensures
        watched_scripts(record, set) matches Ok(scripts) ==> {
            &&& forall|k: int|
                0 <= k < scripts.len() ==> is_script_of(
                    #[trigger] scripts[k],
                    set.text,
                    scripts[k].branch,
                    scripts[k].index,
                ) && scripts[k].branch < set.branches && scripts[k].index < watched_end(
                    record,
                    scripts[k].branch,
                ) && (set.ranged || scripts[k].index == 0)
            &&& forall|b: u32, i: u32|
                b < set.branches && i < watched_end(record, b) && (set.ranged || i == 0)
                    ==> has_script(scripts, b, i)
        },
        (forall|b: u32, i: u32|
            b < set.branches && i < watched_end(record, b) && (set.ranged || i == 0) ==> (
            #[trigger] script_at(set.text, b, i)) is Ok) ==> watched_scripts(record, set) is Ok,
{
    watched_upto_is_whole(record, set, set.branches);
}

/// A configuration is accepted exactly where its name is one, its lookahead and
/// its depth are within bounds, its descriptor is accepted on the network, and
/// without a wildcard its lookahead is one. What is accepted is the descriptor of
/// the configuration.
pub proof fn accepted_configuration_is_sound(config: ConfigModel, network: Seq<char>)
    ensures
        config_set(config, network) matches Ok(set) ==> checked_set(config.descriptor, network)
            == Ok::<SetModel, ReasonModel>(set) && set.text == config.descriptor && 0
            < set.branches <= u32::MAX,
        config_set(config, network) is Ok <==> {
            &&& name_fault(config.name) is None
            &&& 1 <= config.lookahead <= 100_000
            &&& 1 <= config.confirmations <= 2_016
            &&& checked_set(config.descriptor, network) is Ok
            &&& has_wildcard(config.descriptor) || config.lookahead == 1
        },
{
    accepted_descriptor_is_sound(config.descriptor, network);
}

} // verus!
