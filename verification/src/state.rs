//! What tracker holds in memory.

use crate::error::{refusal_of, Refusal, TrackerError};
use crate::incidents::{failure_noted, is_noted, one_more, persist_failure};
use crate::model::{DescriptorRecord, IssuedAddress, IssuedModel, RecordModel};
use crate::ordered::{models, sorted_keys, Duplicate, TextMap};
use crate::text::{contains, decimal, decimal_text, holds_text, same_text};
use vstd::prelude::*;
use vstd::string::*;

verus! {

/// One place of a descriptor comes before another: by branch, then by index.
pub open spec fn place_before(a: IssuedModel, b: IssuedModel) -> bool {
    a.branch < b.branch || (a.branch == b.branch && a.index < b.index)
}

/// Two addresses have the same place.
pub open spec fn same_place(a: IssuedModel, b: IssuedModel) -> bool {
    a.branch == b.branch && a.index == b.index
}

/// Addresses stand in the order of their places, one for each place.
pub open spec fn in_place_order(book: Seq<IssuedModel>) -> bool {
    forall|i: int, j: int|
        0 <= i < j < book.len() ==> place_before(#[trigger] book[i], #[trigger] book[j])
}

/// `after` is `before` with an address put at its place.
pub open spec fn address_put(
    before: Seq<IssuedModel>,
    after: Seq<IssuedModel>,
    address: IssuedModel,
) -> bool {
    &&& in_place_order(after)
    &&& forall|x: IssuedModel| #[trigger]
        after.contains(x) <==> x == address || (before.contains(x) && !same_place(x, address))
}

/// The addresses that were given out for a descriptor, by place.
#[derive(Debug)]
pub struct AddressBook {
    addresses: Vec<IssuedAddress>,
}

impl AddressBook {
    #[verifier::type_invariant]
    spec fn in_order(self) -> bool {
        in_place_order(models(self.addresses@))
    }
}

impl View for AddressBook {
    type V = Seq<IssuedModel>;

    closed spec fn view(&self) -> Seq<IssuedModel> {
        models(self.addresses@)
    }
}

impl Duplicate for AddressBook {
    fn duplicate(&self) -> (r: Self) {
        proof {
            use_type_invariant(self);
        }
        let addresses = self.list();
        AddressBook { addresses }
    }
}

impl AddressBook {
    /// The book without addresses.
    pub fn new() -> (r: AddressBook)
        ensures
            r@ == Seq::<IssuedModel>::empty(),
    {
        let r = AddressBook { addresses: Vec::new() };
        assert(r@ =~= Seq::<IssuedModel>::empty());
        r
    }

    /// The number of addresses.
    pub fn len(&self) -> (r: usize)
        ensures
            r == self@.len(),
            in_place_order(self@),
    {
        proof {
            use_type_invariant(self);
        }
        self.addresses.len()
    }

    /// The address at a position of the order.
    pub fn at(&self, i: usize) -> (r: &IssuedAddress)
        requires
            i < self@.len(),
        ensures
            r@ == self@[i as int],
    {
        &self.addresses[i]
    }

    /// The address of a place.
    pub fn get(&self, branch: u32, index: u32) -> (r: Option<&IssuedAddress>)
        ensures
            in_place_order(self@),
            match r {
                Some(address) => self@.contains(address@) && address.branch == branch
                    && address.index == index,
                None => forall|x: IssuedModel|
                    #![trigger self@.contains(x)]
                    self@.contains(x) ==> !(x.branch == branch && x.index == index),
            },
    {
        proof {
            use_type_invariant(self);
        }
        let mut i: usize = 0;
        while i < self.addresses.len()
            invariant
                i <= self.addresses.len(),
                in_place_order(self@),
                forall|j: int|
                    0 <= j < i ==> !(#[trigger] self@[j].branch == branch && self@[j].index
                        == index),
            decreases self.addresses.len() - i,
        {
            let address = &self.addresses[i];
            assert(self@[i as int] == address@);
            if address.branch == branch && address.index == index {
                assert(self@.contains(self@[i as int]));
                return Some(address);
            }
            i = i + 1;
        }
        None
    }

    /// Puts an address at its place.
    pub fn put(&mut self, address: IssuedAddress)
        ensures
            address_put(old(self)@, final(self)@, address@),
    {
        proof {
            use_type_invariant(&*self);
        }
        let ghost before = self@;
        let ghost new = address@;
        let mut addresses: Vec<IssuedAddress> = Vec::new();
        std::mem::swap(&mut addresses, &mut self.addresses);
        let mut i: usize = 0;
        while i < addresses.len() && (addresses[i].branch < address.branch || (addresses[i].branch
            == address.branch && addresses[i].index < address.index))
            invariant
                i <= addresses.len(),
                before == models(addresses@),
                new == address@,
                forall|j: int| 0 <= j < i ==> place_before(#[trigger] before[j], new),
            decreases addresses.len() - i,
        {
            assert(before[i as int] == addresses[i as int]@);
            i = i + 1;
        }
        let replaces = i < addresses.len() && addresses[i].branch == address.branch
            && addresses[i].index == address.index;
        if replaces {
            assert(before[i as int] == addresses[i as int]@);
            addresses.set(i, address);
            let ghost after = models(addresses@);
            assert(after =~= before.update(i as int, new));
            assert forall|x: IssuedModel| #[trigger] after.contains(x) implies x == new || (
            before.contains(x) && !same_place(x, new)) by {
                let j = choose|j: int| 0 <= j < after.len() && after[j] == x;
                if j != i {
                    assert(before[j] == x);
                    if j > i {
                        assert(place_before(before[i as int], before[j]));
                    }
                }
            }
            assert forall|x: IssuedModel|
                x == new || (before.contains(x) && !same_place(x, new)) implies #[trigger] after.contains(
            x) by {
                if x == new {
                    assert(after[i as int] == x);
                } else {
                    let j = choose|j: int| 0 <= j < before.len() && before[j] == x;
                    assert(after[j] == x);
                }
            }
            assert(in_place_order(after));
        } else {
            if i < addresses.len() {
                assert(before[i as int] == addresses[i as int]@);
                assert(place_before(new, before[i as int]));
            }
            addresses.insert(i, address);
            let ghost after = models(addresses@);
            assert(after =~= before.insert(i as int, new));
            assert forall|j: int| i < j < after.len() implies place_before(
                new,
                #[trigger] after[j],
            ) by {
                assert(after[j] == before[j - 1]);
                if j - 1 > i {
                    assert(place_before(before[i as int], before[j - 1]));
                }
            }
            assert forall|j: int| 0 <= j < i implies #[trigger] after[j] == before[j] by {}
            assert forall|a: int, b: int| 0 <= a < b < after.len() implies place_before(
                #[trigger] after[a],
                #[trigger] after[b],
            ) by {
                let p = if a > i {
                    a - 1
                } else {
                    a
                };
                let q = if b > i {
                    b - 1
                } else {
                    b
                };
                if a != i && b != i {
                    assert(after[a] == before[p] && after[b] == before[q]);
                    assert(place_before(before[p], before[q]));
                }
            }
            assert forall|x: IssuedModel| #[trigger] after.contains(x) implies x == new || (
            before.contains(x) && !same_place(x, new)) by {
                let j = choose|j: int| 0 <= j < after.len() && after[j] == x;
                if j < i {
                    assert(before[j] == x);
                } else if j > i {
                    assert(before[j - 1] == x);
                }
            }
            assert forall|x: IssuedModel|
                x == new || (before.contains(x) && !same_place(x, new)) implies #[trigger] after.contains(
            x) by {
                if x == new {
                    assert(after[i as int] == x);
                } else {
                    let j = choose|j: int| 0 <= j < before.len() && before[j] == x;
                    if j < i {
                        assert(after[j] == x);
                    } else {
                        assert(after[j + 1] == x);
                    }
                }
            }
        }
        self.addresses = addresses;
    }

    /// The addresses by place.
    pub fn list(&self) -> (r: Vec<IssuedAddress>)
        ensures
            models(r@) == self@,
            in_place_order(self@),
    {
        proof {
            use_type_invariant(self);
        }
        let mut r: Vec<IssuedAddress> = Vec::new();
        let mut i: usize = 0;
        while i < self.addresses.len()
            invariant
                i <= self.addresses.len(),
                models(r@) == self@.take(i as int),
            decreases self.addresses.len() - i,
        {
            let ghost before = models(r@);
            let copy = self.addresses[i].duplicate();
            r.push(copy);
            assert(self@[i as int] == copy@);
            assert(models(r@) =~= before.push(copy@));
            assert(self@.take(i + 1) =~= self@.take(i as int).push(self@[i as int]));
            i = i + 1;
        }
        assert(self@.take(i as int) =~= self@);
        r
    }
}

/// The descriptors, the addresses that were given out, and what was counted
/// since the start.
#[derive(Debug)]
pub struct TrackerState {
    pub records: TextMap<DescriptorRecord>,
    pub issued_addresses: TextMap<AddressBook>,
    pub reconciliation_failures: u64,
    pub bookkeeper_failures: u64,
    pub reorgs: u64,
}

/// What a [`TrackerState`] stands for.
#[verifier::ext_equal]
pub struct TrackerModel {
    pub records: Map<Seq<char>, RecordModel>,
    pub issued_addresses: Map<Seq<char>, Seq<IssuedModel>>,
    pub reconciliation_failures: u64,
    pub bookkeeper_failures: u64,
    pub reorgs: u64,
}

impl View for TrackerState {
    type V = TrackerModel;

    open spec fn view(&self) -> TrackerModel {
        TrackerModel {
            records: self.records@,
            issued_addresses: self.issued_addresses@,
            reconciliation_failures: self.reconciliation_failures,
            bookkeeper_failures: self.bookkeeper_failures,
            reorgs: self.reorgs,
        }
    }
}

impl Default for TrackerState {
    fn default() -> (r: Self)
        ensures
            r@ == (TrackerModel {
                records: Map::empty(),
                issued_addresses: Map::empty(),
                reconciliation_failures: 0,
                bookkeeper_failures: 0,
                reorgs: 0,
            }),
    {
        TrackerState {
            records: TextMap::new(),
            issued_addresses: TextMap::new(),
            reconciliation_failures: 0,
            bookkeeper_failures: 0,
            reorgs: 0,
        }
    }
}

/// A state with a failure of an operation counted.
pub open spec fn failure_counted(state: TrackerModel, operation: Seq<char>) -> TrackerModel {
    if holds_text(operation, "reorg"@) {
        TrackerModel { reorgs: one_more(state.reorgs), ..state }
    } else if holds_text(operation, "bookkeeper"@) {
        TrackerModel { bookkeeper_failures: one_more(state.bookkeeper_failures), ..state }
    } else {
        TrackerModel { reconciliation_failures: one_more(state.reconciliation_failures), ..state }
    }
}

/// A state after a failure of a descriptor.
pub open spec fn failure_reported(
    state: TrackerModel,
    name: Seq<char>,
    operation: Seq<char>,
    message: Seq<char>,
    operator_action_required: bool,
    now: u64,
) -> TrackerModel {
    let counted = failure_counted(state, operation);
    if state.records.contains_key(name) {
        TrackerModel {
            records: state.records.insert(
                name,
                failure_noted(
                    state.records[name],
                    operation,
                    message,
                    operator_action_required,
                    now,
                ),
            ),
            ..counted
        }
    } else {
        counted
    }
}

/// Whether a failure is noted on a descriptor, where that is known.
pub open spec fn noted_failure(
    state: TrackerModel,
    name: Seq<char>,
    operation: Seq<char>,
) -> Option<bool> {
    if state.records.contains_key(name) {
        Some(is_noted(state.records[name], operation))
    } else {
        None
    }
}

/// One more, up to the greatest number.
fn increase(n: u64) -> (r: u64)
    ensures
        r == one_more(n),
{
    if n == u64::MAX {
        n
    } else {
        n + 1
    }
}

/// A scan of a descriptor that is running.
#[derive(Debug)]
pub struct ActiveScanGuard {
    pub name: String,
    pub operation_id: String,
}

impl ActiveScanGuard {
    /// What names the scan.
    pub fn operation_id(&self) -> (r: &String)
        ensures
            r@ == self.operation_id@,
    {
        &self.operation_id
    }
}

/// What names a scan: the process, the time and the place of the scan among
/// those of the process.
pub open spec fn operation_text(process: u32, nanos: u64, sequence: u64) -> Seq<char> {
    decimal_text(process as nat) + seq!['-'] + (decimal_text(nanos as nat) + seq!['-']
        + decimal_text(sequence as nat))
}

/// Names a scan.
pub fn scan_operation_id(process: u32, nanos: u64, sequence: u64) -> (r: String)
    ensures
        r@ == operation_text(process, nanos, sequence),
{
    proof {
        reveal_strlit("-");
    }
    let mut r = decimal(process as u64);
    r.append("-");
    r.append(decimal(nanos).as_str());
    r.append("-");
    r.append(decimal(sequence).as_str());
    assert(r@ =~= operation_text(process, nanos, sequence));
    r
}

/// The state of the plugin.
#[derive(Debug)]
pub struct AppState {
    pub inner: TrackerState,
    pub active_scans: TextMap<String>,
    pub rpc_path: String,
    pub network: String,
}

/// What an [`AppState`] stands for.
#[verifier::ext_equal]
pub struct StateModel {
    pub inner: TrackerModel,
    pub active_scans: Map<Seq<char>, Seq<char>>,
    pub rpc_path: Seq<char>,
    pub network: Seq<char>,
}

impl View for AppState {
    type V = StateModel;

    open spec fn view(&self) -> StateModel {
        StateModel {
            inner: self.inner@,
            active_scans: self.active_scans@,
            rpc_path: self.rpc_path@,
            network: self.network@,
        }
    }
}

impl AppState {
    /// A state without descriptors.
    pub fn new(rpc_path: String, network: String) -> (r: Self)
        ensures
            r@ == first_state(rpc_path@, network@),
    {
        AppState {
            inner: TrackerState::default(),
            active_scans: TextMap::new(),
            rpc_path,
            network,
        }
    }

    /// The record of a descriptor.
    pub fn record(&self, name: &str) -> (r: Option<&DescriptorRecord>)
        ensures
            match r {
                Some(record) => self@.inner.records.contains_key(name@) && record@
                    == self@.inner.records[name@],
                None => !self@.inner.records.contains_key(name@),
            },
    {
        self.inner.records.get(name)
    }

    /// Puts the record of a descriptor.
    pub fn put_record(&mut self, record: DescriptorRecord)
        ensures
            final(self)@ == record_put(old(self)@, record@),
    {
        let name = record.config.name.clone();
        self.inner.records.insert(name, record);
    }

    /// Removes a descriptor and the addresses that were given out for it.
    pub fn remove_record(&mut self, name: &str)
        ensures
            final(self)@ == record_removed(old(self)@, name@),
    {
        let _ = self.inner.records.remove(name);
        let _ = self.inner.issued_addresses.remove(name);
    }

    /// The records of all descriptors.
    pub fn records_snapshot(&self) -> (r: &TextMap<DescriptorRecord>)
        ensures
            r@ == self@.inner.records,
    {
        &self.inner.records
    }

    /// The names of all descriptors, in order.
    pub fn record_names(&self) -> (r: Vec<String>)
        ensures
            models(r@) == sorted_keys(self@.inner.records.dom()),
    {
        let ghost keys = sorted_keys(self@.inner.records.dom());
        let mut r: Vec<String> = Vec::new();
        let n = self.inner.records.len();
        let mut i: usize = 0;
        while i < n
            invariant
                i <= n,
                n == keys.len(),
                n == self.inner.records@.dom().len(),
                keys == sorted_keys(self.inner.records@.dom()),
                models(r@) == keys.take(i as int),
            decreases n - i,
        {
            let ghost before = models(r@);
            let (key, _) = self.inner.records.at(i);
            r.push(key.clone());
            assert(models(r@) =~= before.push(key@));
            assert(keys.take(i + 1) =~= keys.take(i as int).push(keys[i as int]));
            i = i + 1;
        }
        assert(keys.take(i as int) =~= keys);
        r
    }

    /// The address that was given out for a place.
    pub fn issued_address(&self, name: &str, branch: u32, index: u32) -> (r: Option<&IssuedAddress>)
        ensures
            in_place_order(book_of(self@, name@)),
            match r {
                Some(address) => self@.inner.issued_addresses.contains_key(name@)
                    && self@.inner.issued_addresses[name@].contains(address@) && address.branch
                    == branch && address.index == index,
                None => self@.inner.issued_addresses.contains_key(name@) ==> forall|x: IssuedModel|
                    #![trigger self@.inner.issued_addresses[name@].contains(x)]
                    self@.inner.issued_addresses[name@].contains(x) ==> !(x.branch == branch
                        && x.index == index),
            },
    {
        match self.inner.issued_addresses.get(name) {
            Some(book) => book.get(branch, index),
            None => None,
        }
    }

    /// The addresses that were given out for a descriptor, by place.
    pub fn issued_addresses(&self, name: &str) -> (r: Vec<IssuedAddress>)
        ensures
            models(r@) == book_of(self@, name@),
            in_place_order(models(r@)),
    {
        match self.inner.issued_addresses.get(name) {
            Some(book) => book.list(),
            None => {
                let r: Vec<IssuedAddress> = Vec::new();
                assert(models(r@) =~= Seq::<IssuedModel>::empty());
                r
            },
        }
    }

    /// Puts an address that was given out.
    pub fn put_issued_address(&mut self, address: IssuedAddress)
        ensures
            address_put(
                book_of(old(self)@, address@.name),
                final(self)@.inner.issued_addresses[address@.name],
                address@,
            ),
            final(self)@ == book_put(
                old(self)@,
                address@.name,
                final(self)@.inner.issued_addresses[address@.name],
            ),
    {
        let name = address.name.clone();
        let ghost before = self@.inner.issued_addresses;
        let mut book = match self.inner.issued_addresses.remove(name.as_str()) {
            Some(book) => book,
            None => AddressBook::new(),
        };
        book.put(address);
        self.inner.issued_addresses.insert(name, book);
        assert(self@.inner.issued_addresses =~= before.insert(name@, book@));
    }

    /// Begins a scan of a descriptor: only one can be running.
    pub fn begin_scan(&mut self, name: &str, operation_id: String) -> (r: Result<
        ActiveScanGuard,
        Refusal,
    >)
        ensures
            if old(self)@.active_scans.contains_key(name@) {
                &&& r is Err
                &&& r->Err_0@ == refusal_of(TrackerError::ScanAlreadyActive, name@)
                &&& final(self)@ == old(self)@
            } else {
                &&& r is Ok
                &&& r->Ok_0.name@ == name@
                &&& r->Ok_0.operation_id@ == operation_id@
                &&& final(self)@ == scan_begun(old(self)@, name@, operation_id@)
            },
    {
        if self.active_scans.contains(name) {
            return Err(Refusal::of(TrackerError::ScanAlreadyActive, name));
        }
        self.active_scans.insert(name.to_owned(), operation_id.clone());
        Ok(ActiveScanGuard { name: name.to_owned(), operation_id })
    }

    /// Refuses a descriptor of which a scan is running.
    pub fn ensure_no_active_scan(&self, name: &str) -> (r: Result<(), Refusal>)
        ensures
            match r {
                Ok(_) => !self@.active_scans.contains_key(name@),
                Err(e) => self@.active_scans.contains_key(name@) && e@ == refusal_of(
                    TrackerError::ScanActive,
                    name@,
                ),
            },
    {
        if self.active_scans.contains(name) {
            Err(Refusal::of(TrackerError::ScanActive, name))
        } else {
            Ok(())
        }
    }

    /// Ends a scan. Another scan of the same descriptor goes on.
    pub fn end_scan(&mut self, scan: &ActiveScanGuard)
        ensures
            final(self)@ == scan_ended(old(self)@, scan.name@, scan.operation_id@),
    {
        let running = match self.active_scans.get(scan.name.as_str()) {
            Some(operation_id) => same_text(operation_id.as_str(), scan.operation_id.as_str()),
            None => false,
        };
        if running {
            let _ = self.active_scans.remove(scan.name.as_str());
        }
    }

    /// Counts a failure and notes it on the descriptor that it is about. The
    /// result is none for an unknown descriptor, and else whether the record is
    /// to be stored.
    pub fn report_descriptor_failure(
        &mut self,
        name: &str,
        operation: &str,
        message: &str,
        operator_action_required: bool,
        now: u64,
    ) -> (noted: Option<bool>)
        ensures
            noted == noted_failure(old(self)@.inner, name@, operation@),
            final(self)@ == (StateModel {
                inner: failure_reported(
                    old(self)@.inner,
                    name@,
                    operation@,
                    message@,
                    operator_action_required,
                    now,
                ),
                ..old(self)@
            }),
    {
        if contains(operation, "reorg") {
            self.inner.reorgs = increase(self.inner.reorgs);
        } else if contains(operation, "bookkeeper") {
            self.inner.bookkeeper_failures = increase(self.inner.bookkeeper_failures);
        } else {
            self.inner.reconciliation_failures = increase(self.inner.reconciliation_failures);
        }
        let ghost before = self@.inner.records;
        match self.inner.records.remove(name) {
            None => {
                assert(before.remove(name@) =~= before);
                None
            },
            Some(record) => {
                let mut record = record;
                let noted = persist_failure(
                    &mut record,
                    operation,
                    message,
                    operator_action_required,
                    now,
                );
                self.inner.records.insert(name.to_owned(), record);
                assert(self@.inner.records =~= before.insert(name@, record@));
                Some(noted)
            },
        }
    }

    /// Counts a chain reorganisation.
    pub fn record_reorg(&mut self)
        ensures
            final(self)@ == reorg_counted(old(self)@),
    {
        self.inner.reorgs = increase(self.inner.reorgs);
    }
}

/// The addresses that were given out for a descriptor.
pub open spec fn book_of(state: StateModel, name: Seq<char>) -> Seq<IssuedModel> {
    if state.inner.issued_addresses.contains_key(name) {
        state.inner.issued_addresses[name]
    } else {
        Seq::empty()
    }
}

/// The state before anything is known.
pub open spec fn first_state(rpc_path: Seq<char>, network: Seq<char>) -> StateModel {
    StateModel {
        inner: TrackerModel {
            records: Map::empty(),
            issued_addresses: Map::empty(),
            reconciliation_failures: 0,
            bookkeeper_failures: 0,
            reorgs: 0,
        },
        active_scans: Map::empty(),
        rpc_path,
        network,
    }
}

/// A state with a record put under its own name.
pub open spec fn record_put(state: StateModel, record: RecordModel) -> StateModel {
    StateModel {
        inner: TrackerModel {
            records: state.inner.records.insert(record.config.name, record),
            ..state.inner
        },
        ..state
    }
}

/// A state without a descriptor and the addresses that were given out for it.
pub open spec fn record_removed(state: StateModel, name: Seq<char>) -> StateModel {
    StateModel {
        inner: TrackerModel {
            records: state.inner.records.remove(name),
            issued_addresses: state.inner.issued_addresses.remove(name),
            ..state.inner
        },
        ..state
    }
}

/// A state with a book of the addresses that were given out for a descriptor.
pub open spec fn book_put(
    state: StateModel,
    name: Seq<char>,
    book: Seq<IssuedModel>,
) -> StateModel {
    StateModel {
        inner: TrackerModel {
            issued_addresses: state.inner.issued_addresses.insert(name, book),
            ..state.inner
        },
        ..state
    }
}

/// A state after a chain reorganisation was counted.
pub open spec fn reorg_counted(state: StateModel) -> StateModel {
    StateModel {
        inner: TrackerModel { reorgs: one_more(state.inner.reorgs), ..state.inner },
        ..state
    }
}

/// Each record stands under its own name.
pub open spec fn are_named(records: Map<Seq<char>, RecordModel>) -> bool {
    forall|name: Seq<char>| #[trigger]
        records.contains_key(name) ==> records[name].config.name == name
}

/// A state in which a scan of a descriptor is running.
pub open spec fn scan_begun(
    state: StateModel,
    name: Seq<char>,
    operation_id: Seq<char>,
) -> StateModel {
    StateModel { active_scans: state.active_scans.insert(name, operation_id), ..state }
}

/// A state after a scan has ended.
pub open spec fn scan_ended(
    state: StateModel,
    name: Seq<char>,
    operation_id: Seq<char>,
) -> StateModel {
    if state.active_scans.contains_key(name) && state.active_scans[name] == operation_id {
        StateModel { active_scans: state.active_scans.remove(name), ..state }
    } else {
        state
    }
}

/// A scan that has ended leaves room for the next one of the descriptor, and
/// touches no scan of another descriptor.
pub proof fn ended_scan_is_released(
    state: StateModel,
    name: Seq<char>,
    operation_id: Seq<char>,
)
    requires
        !state.active_scans.contains_key(name),
    ensures
        ({
            scan_ended(scan_begun(state, name, operation_id), name, operation_id) == state
        }),
{
    assert(state.active_scans.insert(name, operation_id).remove(name) =~= state.active_scans);
}

/// Two scans of a process have different names.
pub proof fn scans_are_told_apart(
    process: u32,
    nanos: u64,
    sequence: u64,
    other_nanos: u64,
    other_sequence: u64,
)
    requires
        sequence != other_sequence,
    ensures
        operation_text(process, nanos, sequence) != operation_text(
            process,
            other_nanos,
            other_sequence,
        ),
{
    sequence_of(process, nanos, sequence);
    sequence_of(process, other_nanos, other_sequence);
}

/// The last part of the name of a scan is its place among the scans.
proof fn sequence_of(process: u32, nanos: u64, sequence: u64)
    ensures
        crate::text::parsed_number(
            crate::text::parts(operation_text(process, nanos, sequence), '-').last(),
            u64::MAX as nat,
        ) == Some(sequence as nat),
{
    let p = decimal_text(process as nat);
    let n = decimal_text(nanos as nat);
    let s = decimal_text(sequence as nat);
    crate::text::decimal_is_digits(process as nat);
    crate::text::decimal_is_digits(nanos as nat);
    crate::text::decimal_is_digits(sequence as nat);
    crate::text::parts_of_whole(p, '-');
    crate::text::parts_of_whole(n, '-');
    crate::text::parts_of_whole(s, '-');
    crate::text::parts_of_joined(n, s, '-');
    crate::text::parts_of_joined(p, n + seq!['-'] + s, '-');
    crate::text::decimal_round_trip(sequence as nat, u64::MAX as nat);
}

/// A record is kept under its own name, and no other record, address or scan is
/// touched.
pub proof fn put_record_is_found(state: StateModel, record: RecordModel, other: Seq<char>)
    ensures
        ({
            let after = record_put(state, record);
            let name = record.config.name;
            &&& after.inner.records.contains_key(name)
            &&& after.inner.records[name] == record
            &&& other != name ==> after.inner.records.contains_key(other)
                == state.inner.records.contains_key(other) && after.inner.records[other]
                == state.inner.records[other]
            &&& after.inner.issued_addresses == state.inner.issued_addresses
            &&& after.active_scans == state.active_scans
            &&& after.network == state.network
        }),
{
}

/// A descriptor that is removed is not known any more and has no addresses, and
/// all others stay.
pub proof fn removed_record_is_gone(state: StateModel, name: Seq<char>, other: Seq<char>)
    ensures
        ({
            let after = record_removed(state, name);
            &&& !after.inner.records.contains_key(name)
            &&& book_of(after, name) == Seq::<IssuedModel>::empty()
            &&& other != name ==> after.inner.records.contains_key(other)
                == state.inner.records.contains_key(other) && after.inner.records[other]
                == state.inner.records[other] && book_of(after, other) == book_of(state, other)
            &&& after.active_scans == state.active_scans
            &&& after.network == state.network
        }),
{
}

/// An address that is put is found under its own place, in the order of places; it
/// takes the place of an earlier one there, and every other address stays.
pub proof fn put_address_is_found(
    before: Seq<IssuedModel>,
    after: Seq<IssuedModel>,
    address: IssuedModel,
    other: IssuedModel,
)
    requires
        address_put(before, after, address),
    ensures
        after.contains(address),
        after.contains(other) && other.branch == address.branch && other.index == address.index
            ==> other == address,
        other.branch != address.branch || other.index != address.index ==> (after.contains(other)
            <==> before.contains(other)),
        forall|i: int, j: int|
            0 <= i < j < after.len() ==> (#[trigger] after[i]).branch < (
            #[trigger] after[j]).branch || (after[i].branch == after[j].branch && after[i].index
                < after[j].index),
{
    assert forall|i: int, j: int| 0 <= i < j < after.len() implies (#[trigger] after[i]).branch < (
    #[trigger] after[j]).branch || (after[i].branch == after[j].branch && after[i].index
        < after[j].index) by {
        assert(place_before(after[i], after[j]));
    }
}

/// The addresses of a descriptor are those of the book that was put for it, and
/// there are none before one was.
pub proof fn book_is_that_of_the_name(
    state: StateModel,
    name: Seq<char>,
    book: Seq<IssuedModel>,
    other: Seq<char>,
)
    ensures
        book_of(book_put(state, name, book), name) == book,
        other != name ==> book_of(book_put(state, name, book), other) == book_of(state, other),
        book_put(state, name, book).inner.records == state.inner.records,
        !state.inner.issued_addresses.contains_key(name) ==> book_of(state, name) == Seq::<
            IssuedModel,
        >::empty(),
{
}

/// The first state knows nothing, has counted nothing and runs no scan.
pub proof fn first_state_is_empty(rpc_path: Seq<char>, network: Seq<char>, name: Seq<char>)
    ensures
        ({
            let state = first_state(rpc_path, network);
            &&& !state.inner.records.contains_key(name)
            &&& book_of(state, name) == Seq::<IssuedModel>::empty()
            &&& !state.active_scans.contains_key(name)
            &&& state.inner.reorgs == 0
            &&& state.inner.bookkeeper_failures == 0
            &&& state.inner.reconciliation_failures == 0
            &&& state.rpc_path == rpc_path
            &&& state.network == network
        }),
{
}

/// While a scan of a descriptor runs it is known to, under its own name, and it
/// ends only at its own word; scans of other descriptors go on.
pub proof fn scan_runs_until_its_end(
    state: StateModel,
    name: Seq<char>,
    operation_id: Seq<char>,
    other_id: Seq<char>,
    other: Seq<char>,
)
    ensures
        ({
            let running = scan_begun(state, name, operation_id);
            &&& running.active_scans.contains_key(name)
            &&& running.active_scans[name] == operation_id
            &&& other != name ==> running.active_scans.contains_key(other)
                == state.active_scans.contains_key(other) && running.active_scans[other]
                == state.active_scans[other]
            &&& running.inner == state.inner
            &&& !scan_ended(running, name, operation_id).active_scans.contains_key(name)
            &&& other_id != operation_id ==> scan_ended(running, name, other_id) == running
            &&& other != name ==> scan_ended(running, name, operation_id).active_scans.contains_key(
                other,
            ) == state.active_scans.contains_key(other)
            &&& scan_ended(running, name, operation_id).inner == state.inner
        }),
{
}

/// Each failure is counted once: one of a reorganisation as such, else one that
/// deals with Bookkeeper as such, and every other as one of reconciliation.
pub proof fn failure_is_counted_once(state: TrackerModel, operation: Seq<char>)
    requires
        state.reorgs < u64::MAX,
        state.bookkeeper_failures < u64::MAX,
        state.reconciliation_failures < u64::MAX,
    ensures
        ({
            let after = failure_counted(state, operation);
            &&& after.reorgs == state.reorgs + (if holds_text(operation, "reorg"@) {
                1int
            } else {
                0
            })
            &&& after.bookkeeper_failures == state.bookkeeper_failures + (if !holds_text(
                operation,
                "reorg"@,
            ) && holds_text(operation, "bookkeeper"@) {
                1int
            } else {
                0
            })
            &&& after.reorgs + after.bookkeeper_failures + after.reconciliation_failures
                == state.reorgs + state.bookkeeper_failures + state.reconciliation_failures + 1
            &&& after.records == state.records
            &&& after.issued_addresses == state.issued_addresses
        }),
{
}

/// A reported failure changes nothing of a record but its incident, and no other
/// record.
pub proof fn failure_touches_one_incident(
    state: TrackerModel,
    name: Seq<char>,
    operation: Seq<char>,
    message: Seq<char>,
    operator_action_required: bool,
    now: u64,
    other: Seq<char>,
)
    ensures
        ({
            let after = failure_reported(
                state,
                name,
                operation,
                message,
                operator_action_required,
                now,
            );
            &&& after.records.dom() == state.records.dom()
            &&& other != name ==> after.records[other] == state.records[other]
            &&& state.records.contains_key(name) ==> after.records[name] == (RecordModel {
                incident: after.records[name].incident,
                ..state.records[name]
            })
            &&& after.issued_addresses == state.issued_addresses
        }),
{
    let after = failure_reported(state, name, operation, message, operator_action_required, now);
    assert(after.records.dom() =~= state.records.dom());
}

/// A reorganisation that is counted changes that count alone, by one.
pub proof fn reorganisation_is_counted(state: StateModel)
    requires
        state.inner.reorgs < u64::MAX,
    ensures
        reorg_counted(state).inner.reorgs == state.inner.reorgs + 1,
        reorg_counted(state).inner.records == state.inner.records,
        reorg_counted(state).inner.issued_addresses == state.inner.issued_addresses,
        reorg_counted(state).inner.bookkeeper_failures == state.inner.bookkeeper_failures,
        reorg_counted(state).inner.reconciliation_failures == state.inner.reconciliation_failures,
        reorg_counted(state).active_scans == state.active_scans,
{
}

/// A failure of a descriptor that is not known is noted nowhere, and of one that is
/// known where its record takes it.
pub proof fn failure_is_noted_on_the_descriptor(
    state: TrackerModel,
    name: Seq<char>,
    operation: Seq<char>,
    message: Seq<char>,
    operator_action_required: bool,
    now: u64,
)
    ensures
        ({
            let after = failure_reported(
                state,
                name,
                operation,
                message,
                operator_action_required,
                now,
            );
            let noted = noted_failure(state, name, operation);
            &&& noted is None <==> !state.records.contains_key(name)
            &&& noted == Some(false) ==> after.records[name] == state.records[name]
            &&& noted == Some(true) ==> after.records[name].incident is Some
                && after.records[name].incident->Some_0.operation == operation
                && after.records[name].incident->Some_0.message == message
                && after.records[name].incident->Some_0.last_seen == now
        }),
{
}

} // verus!
