//! How far each branch of a descriptor is watched.

use crate::error::TrackerError;
use crate::model::{DescriptorRecord, RecordModel};
use crate::ordered::{ordered_keys, ranked};
use std::collections::BTreeMap;
use vstd::prelude::*;

verus! {

/// The end of the range that leaves `lookahead` indexes unused.
pub open spec fn desired_end(last_used: Option<u32>, lookahead: u32) -> Result<u32, TrackerError> {
    let end: int = match last_used {
        Some(index) => index + 1 + lookahead,
        None => lookahead as int,
    };
    if end > u32::MAX {
        Err(TrackerError::RangeOverflow)
    } else if end >= 0x8000_0000 {
        Err(TrackerError::RangeTooLarge)
    } else {
        Ok(end as u32)
    }
}

/// The end of the range that leaves `lookahead` indexes unused.
pub fn desired_range_end(last_used: Option<u32>, lookahead: u32) -> (r: Result<u32, TrackerError>)
    ensures
        r == desired_end(last_used, lookahead),
{
    let end: u64 = match last_used {
        Some(index) => index as u64 + 1 + lookahead as u64,
        None => lookahead as u64,
    };
    if end > u32::MAX as u64 {
        Err(TrackerError::RangeOverflow)
    } else if end >= 0x8000_0000 {
        Err(TrackerError::RangeTooLarge)
    } else {
        Ok(end as u32)
    }
}

/// The greater of two optional indexes.
pub open spec fn greater(a: Option<u32>, b: Option<u32>) -> Option<u32> {
    match (a, b) {
        (Some(x), Some(y)) => if x >= y {
            Some(x)
        } else {
            Some(y)
        },
        (Some(x), None) => Some(x),
        (None, _) => b,
    }
}

/// The greatest index of a branch that was used or given out.
pub open spec fn frontier(record: RecordModel, branch: u32) -> Option<u32> {
    let used = if record.last_used_indexes.contains_key(branch) {
        Some(record.last_used_indexes[branch])
    } else {
        None
    };
    let issued = if record.next_indexes.contains_key(branch) && record.next_indexes[branch] > 0 {
        Some((record.next_indexes[branch] - 1) as u32)
    } else {
        None
    };
    greater(used, issued)
}

/// The value at a key, where there is one.
pub(crate) fn index_at(m: &BTreeMap<u32, u32>, key: u32) -> (r: Option<u32>)
    ensures
        r == (if m@.contains_key(key) {
            Some(m@[key])
        } else {
            None
        }),
{
    broadcast use vstd::laws_cmp::group_laws_cmp;

    match m.get(&key) {
        Some(v) => Some(*v),
        None => None,
    }
}

/// The greatest index of a branch that was used or given out.
pub fn branch_frontier(record: &DescriptorRecord, branch: u32) -> (r: Option<u32>)
    ensures
        r == frontier(record@, branch),
{
    let used = index_at(&record.last_used_indexes, branch);
    let issued = match index_at(&record.next_indexes, branch) {
        Some(next) => if next > 0 {
            Some((next - 1) as u32)
        } else {
            None
        },
        None => None,
    };
    match (used, issued) {
        (Some(x), Some(y)) => if x >= y {
            Some(x)
        } else {
            Some(y)
        },
        (Some(x), None) => Some(x),
        (None, _) => issued,
    }
}

/// The end of the range of a branch that leaves `lookahead` indexes unused.
pub fn desired_branch_range_end(record: &DescriptorRecord, branch: u32, lookahead: u32) -> (r:
    Result<u32, TrackerError>)
    ensures
        r == desired_end(frontier(record@, branch), lookahead),
{
    desired_range_end(branch_frontier(record, branch), lookahead)
}

/// `v` is the greatest value of a map, or none is there.
pub open spec fn is_greatest(m: Map<u32, u32>, v: Option<u32>) -> bool {
    match v {
        Some(x) => (exists|k: u32| #[trigger] m.contains_key(k) && m[k] == x) && forall|k: u32|
            #[trigger] m.contains_key(k) ==> m[k] <= x,
        None => forall|k: u32| !#[trigger] m.contains_key(k),
    }
}

/// The greatest value of a map.
pub open spec fn greatest_value(m: Map<u32, u32>) -> Option<u32> {
    choose|v: Option<u32>| is_greatest(m, v)
}

/// There is one greatest value.
pub proof fn greatest_is(m: Map<u32, u32>, v: Option<u32>)
    requires
        is_greatest(m, v),
    ensures
        greatest_value(m) == v,
{
    let w = greatest_value(m);
    assert(is_greatest(m, w));
}

/// The greatest value of a map.
pub(crate) fn greatest(m: &BTreeMap<u32, u32>) -> (r: Option<u32>)
    ensures
        r == greatest_value(m@),
{
    broadcast use vstd::laws_cmp::group_laws_cmp;

    let mut best: Option<u32> = None;
    for v in it: m.values()
        invariant
            it.seq().unref().to_set() == m@.values(),
            forall|u: u32| #[trigger]
                m@.values().contains(u) ==> exists|j: int|
                    0 <= j < it.seq().len() && #[trigger] it.seq().unref()[j] == u,
            forall|j: int|
                0 <= j < it.seq().len() ==> m@.values().contains(#[trigger] it.seq().unref()[j]),
            match best {
                Some(x) => (exists|j: int| 0 <= j < it.index() && #[trigger] it.seq().unref()[j] == x)
                    && forall|j: int| 0 <= j < it.index() ==> #[trigger] it.seq().unref()[j] <= x,
                None => it.index() == 0,
            },
    {
        let take = match best {
            Some(x) => *v > x,
            None => true,
        };
        if take {
            best = Some(*v);
        }
    }
    proof {
        assert forall|k: u32| #[trigger] m@.contains_key(k) implies m@.values().contains(m@[k]) by {}
        assert(is_greatest(m@, best));
        greatest_is(m@, best);
    }
    best
}

/// A record whose aggregate indexes are those of its branches.
pub open spec fn refreshed(record: RecordModel) -> RecordModel {
    RecordModel {
        range_end: match greatest_value(record.range_ends) {
            Some(end) => end,
            None => 0,
        },
        last_used_index: greatest_value(record.last_used_indexes),
        ..record
    }
}

/// Sets the aggregate indexes to those of the branches.
pub(crate) fn refresh_aggregate_indexes(record: &mut DescriptorRecord)
    ensures
        final(record)@ == refreshed(old(record)@),
{
    record.range_end = match greatest(&record.range_ends) {
        Some(end) => end,
        None => 0,
    };
    record.last_used_index = greatest(&record.last_used_indexes);
}

/// A map with a key set to an end, or to the end that it has where that is
/// greater and `raise` holds.
pub open spec fn end_set(m: Map<u32, u32>, key: u32, end: u32, raise: bool) -> Map<u32, u32> {
    if raise && m.contains_key(key) && m[key] > end {
        m
    } else {
        m.insert(key, end)
    }
}

/// The ends of a record with those of the first `count` branches set to leave
/// `lookahead` indexes unused; where `raise` holds no end goes down.
pub open spec fn desired_ends(
    record: RecordModel,
    count: nat,
    lookahead: u32,
    raise: bool,
) -> Result<Map<u32, u32>, TrackerError>
    decreases count,
{
    if count == 0 {
        Ok(record.range_ends)
    } else {
        let branch = (count - 1) as u32;
        match desired_ends(record, (count - 1) as nat, lookahead, raise) {
            Err(e) => Err(e),
            Ok(ends) => match desired_end(frontier(record, branch), lookahead) {
                Err(e) => Err(e),
                Ok(end) => Ok(end_set(ends, branch, end, raise)),
            },
        }
    }
}

/// What was refused for the first branches is refused for more of them.
proof fn refused_end_stays(
    record: RecordModel,
    count: nat,
    more: nat,
    lookahead: u32,
    raise: bool,
)
    requires
        count <= more,
        desired_ends(record, count, lookahead, raise) is Err,
    ensures
        desired_ends(record, more, lookahead, raise) == desired_ends(
            record,
            count,
            lookahead,
            raise,
        ),
    decreases more,
{
    if count < more {
        refused_end_stays(record, count, (more - 1) as nat, lookahead, raise);
    }
}

/// Sets a key to an end, or keeps the end that it has where that is greater
/// and `raise` holds.
pub(crate) fn set_end(m: &mut BTreeMap<u32, u32>, key: u32, end: u32, raise: bool)
    ensures
        final(m)@ == end_set(old(m)@, key, end, raise),
{
    broadcast use vstd::laws_cmp::group_laws_cmp;

    let keep = match index_at(m, key) {
        Some(present) => raise && present > end,
        None => false,
    };
    if !keep {
        m.insert(key, end);
    }
}

/// The ends of a record with those of the first `count` branches set to leave
/// `lookahead` indexes unused.
pub(crate) fn desired_range_ends(
    record: &DescriptorRecord,
    count: u32,
    lookahead: u32,
    raise: bool,
) -> (r: Result<BTreeMap<u32, u32>, TrackerError>)
    ensures
        (match r {
            Ok(ends) => Ok(ends@),
            Err(e) => Err(e),
        }) == desired_ends(record@, count as nat, lookahead, raise),
{
    let mut ends = record.range_ends.clone();
    let mut branch: u32 = 0;
    while branch < count
        invariant
            branch <= count,
            Ok::<Map<u32, u32>, TrackerError>(ends@) == desired_ends(
                record@,
                branch as nat,
                lookahead,
                raise,
            ),
        decreases count - branch,
    {
        match desired_branch_range_end(record, branch, lookahead) {
            Err(e) => {
                proof {
                    refused_end_stays(
                        record@,
                        (branch + 1) as nat,
                        count as nat,
                        lookahead,
                        raise,
                    );
                }
                return Err(e);
            },
            Ok(end) => {
                set_end(&mut ends, branch, end, raise);
            },
        }
        branch = branch + 1;
    }
    Ok(ends)
}

/// The end up to which a branch is watched.
pub open spec fn watched_end(record: RecordModel, branch: u32) -> u32 {
    if record.range_ends.contains_key(branch) {
        record.range_ends[branch]
    } else {
        record.range_end
    }
}

/// The end up to which a branch is watched.
pub fn branch_range_end(record: &DescriptorRecord, branch: u32) -> (r: u32)
    ensures
        r == watched_end(record@, branch),
{
    match index_at(&record.range_ends, branch) {
        Some(end) => end,
        None => record.range_end,
    }
}

/// The same end for each of the first `count` branches.
pub open spec fn uniform_ends(count: u32, end: u32) -> Map<u32, u32> {
    Map::new(|branch: u32| branch < count, |branch: u32| end)
}

/// The same end for each of the first `count` branches.
pub(crate) fn uniform_range_ends(count: u32, end: u32) -> (r: BTreeMap<u32, u32>)
    ensures
        r@ == uniform_ends(count, end),
{
    let mut ends: BTreeMap<u32, u32> = BTreeMap::new();
    let mut branch: u32 = 0;
    assert(ends@ =~= uniform_ends(0, end));
    while branch < count
        invariant
            branch <= count,
            ends@ == uniform_ends(branch, end),
        decreases count - branch,
    {
        set_end(&mut ends, branch, end, false);
        assert(ends@ =~= uniform_ends((branch + 1) as u32, end));
        branch = branch + 1;
    }
    ends
}

/// Whether two maps are the same.
pub(crate) fn same_indexes(a: &BTreeMap<u32, u32>, b: &BTreeMap<u32, u32>) -> (r: bool)
    ensures
        r == (a@ == b@),
{
    let left = ordered_keys(a);
    let right = ordered_keys(b);
    if left.len() != right.len() {
        return false;
    }
    let mut i: usize = 0;
    while i < left.len()
        invariant
            i <= left.len(),
            left.len() == right.len(),
            left@ == ranked::<u32>(a@.dom()),
            right@ == ranked::<u32>(b@.dom()),
            left@.to_set() == a@.dom(),
            right@.to_set() == b@.dom(),
            forall|j: int|
                0 <= j < i ==> #[trigger] left[j] == right[j] && a@[left[j]] == b@[left[j]],
        decreases left.len() - i,
    {
        let key = left[i];
        if key != right[i] {
            assert(left@[i as int] != right@[i as int]);
            return false;
        }
        assert(left@.contains(key) && right@.contains(key));
        assert(left@.to_set().contains(key) && right@.to_set().contains(key));
        match (index_at(a, key), index_at(b, key)) {
            (Some(x), Some(y)) => {
                if x != y {
                    return false;
                }
            },
            _ => {},
        }
        i = i + 1;
    }
    proof {
        assert(left@ =~= right@);
        assert forall|k: u32| #[trigger] a@.contains_key(k) implies a@[k] == b@[k] by {
            assert(left@.to_set().contains(k));
            let j = choose|j: int| 0 <= j < left.len() && left@[j] == k;
            assert(left[j] == right[j]);
        }
        assert(a@ =~= b@);
    }
    true
}

/// A branch is to be watched up to as many indexes beyond the last one that was
/// used as the lookahead asks, or up to the lookahead where none was. It is
/// refused exactly where that is not an index that can be derived.
pub proof fn end_leaves_the_lookahead(last_used: Option<u32>, lookahead: u32)
    ensures
        desired_end(last_used, lookahead) matches Ok(end) ==> {
            &&& last_used matches Some(last) ==> end - (last + 1) == lookahead
            &&& last_used is None ==> end == lookahead
            &&& end < 0x8000_0000
        },
        desired_end(last_used, lookahead) is Err <==> (match last_used {
            Some(last) => last + 1,
            None => 0,
        }) + lookahead >= 0x8000_0000,
{
}

/// The frontier of a branch is the greatest index that was used or given out: no
/// less than either, and one of them.
pub proof fn frontier_is_the_greatest_index(record: RecordModel, branch: u32)
    ensures
        ({
            let used = record.last_used_indexes;
            let next = record.next_indexes;
            let last = frontier(record, branch);
            &&& used.contains_key(branch) ==> last is Some && last->Some_0 >= used[branch]
            &&& next.contains_key(branch) && next[branch] > 0 ==> last is Some && last->Some_0
                >= next[branch] - 1
            &&& last matches Some(index) ==> (used.contains_key(branch) && used[branch] == index)
                || (next.contains_key(branch) && next[branch] == index + 1)
            &&& last is None <==> !used.contains_key(branch) && (!next.contains_key(branch)
                || next[branch] == 0)
        }),
{
}

/// A branch is watched up to its own end, or up to the one end of a record that
/// has none for the branch.
pub proof fn branch_is_watched_up_to_its_end(record: RecordModel, branch: u32)
    ensures
        record.range_ends.contains_key(branch) ==> watched_end(record, branch)
            == record.range_ends[branch],
        !record.range_ends.contains_key(branch) ==> watched_end(record, branch)
            == record.range_end,
{
}

/// Setting an end changes no other branch, and raising one lowers nothing.
pub proof fn end_is_set_for_one_branch(
    m: Map<u32, u32>,
    key: u32,
    end: u32,
    raise: bool,
    other: u32,
)
    ensures
        end_set(m, key, end, raise).contains_key(key),
        end_set(m, key, end, raise)[key] >= end,
        !raise ==> end_set(m, key, end, raise)[key] == end,
        raise && m.contains_key(key) ==> end_set(m, key, end, raise)[key] >= m[key],
        end_set(m, key, end, raise)[key] == end || (m.contains_key(key) && end_set(
            m,
            key,
            end,
            raise,
        )[key] == m[key]),
        other != key ==> end_set(m, key, end, raise).contains_key(other) == m.contains_key(other)
            && end_set(m, key, end, raise)[other] == m[other],
{
}

/// A finite map has a greatest value, or none at all.
pub proof fn greatest_exists(m: Map<u32, u32>) -> (v: Option<u32>)
    requires
        m.dom().finite(),
    ensures
        is_greatest(m, v),
    decreases m.dom().len(),
{
    if m.dom().is_empty() {
        assert forall|k: u32| !#[trigger] m.contains_key(k) by {
            assert(!m.dom().contains(k));
        }
        None
    } else {
        let k = m.dom().choose();
        let rest = m.remove(k);
        assert(rest.dom() =~= m.dom().remove(k));
        let w = greatest_exists(rest);
        let v = match w {
            Some(x) => if x >= m[k] {
                Some(x)
            } else {
                Some(m[k])
            },
            None => Some(m[k]),
        };
        assert(m.contains_key(k));
        assert forall|j: u32| #[trigger] m.contains_key(j) implies m[j] <= v->Some_0 by {
            if j != k {
                assert(rest.contains_key(j));
            }
        }
        if w is Some && w->Some_0 >= m[k] {
            let j = choose|j: u32| #[trigger] rest.contains_key(j) && rest[j] == w->Some_0;
            assert(m.contains_key(j) && m[j] == v->Some_0);
        } else {
            assert(m[k] == v->Some_0);
        }
        v
    }
}

/// The one end and the one last used index that a record is shown with are the
/// greatest of those of its branches, and nothing else changes.
pub proof fn aggregates_are_the_greatest(record: RecordModel, branch: u32)
    requires
        record.range_ends.dom().finite(),
        record.last_used_indexes.dom().finite(),
    ensures
        ({
            let after = refreshed(record);
            &&& record.range_ends.contains_key(branch) ==> record.range_ends[branch]
                <= after.range_end
            &&& after.range_end > 0 ==> exists|b: u32| #[trigger]
                record.range_ends.contains_key(b) && record.range_ends[b] == after.range_end
            &&& record.last_used_indexes.contains_key(branch) ==> after.last_used_index is Some
                && record.last_used_indexes[branch] <= after.last_used_index->Some_0
            &&& after.last_used_index matches Some(last) ==> exists|b: u32| #[trigger]
                record.last_used_indexes.contains_key(b) && record.last_used_indexes[b] == last
            &&& after == (RecordModel {
                range_end: after.range_end,
                last_used_index: after.last_used_index,
                ..record
            })
        }),
{
    let end = greatest_exists(record.range_ends);
    let last = greatest_exists(record.last_used_indexes);
    greatest_is(record.range_ends, end);
    greatest_is(record.last_used_indexes, last);
}

/// A new descriptor is watched up to the same end on each of its branches.
pub proof fn ends_are_uniform(count: u32, end: u32, branch: u32)
    ensures
        uniform_ends(count, end).contains_key(branch) <==> branch < count,
        branch < count ==> uniform_ends(count, end)[branch] == end,
{
}

} // verus!
