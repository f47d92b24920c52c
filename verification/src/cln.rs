//! What tracker asks of the node, and how it reads the replies.

use crate::error::{
    caused, plain, refusal_of, Reason, ReasonModel, Refusal, RefusalModel, TrackerError,
};
use crate::json::{named_field_at, no_fields, opt_model, opt_text, Fields, Json, JsonModel};
use crate::model::{DescriptorRecord, IssuedAddress, IssuedModel, RecordModel};
use crate::model::{STORE_ADDRESSES, STORE_DESCRIPTORS, STORE_PREFIX};
use crate::ordered::{models, Distinct, Duplicate, Ranked};
use crate::text::{
    around, begins_with, comes_before, decimal, decimal_text, same_text, starts_with, text_before,
};
use miniscript::bitcoin::{consensus, Block, Transaction};
use vstd::prelude::*;
use vstd::string::*;

verus! {

/// A failure that bwatch reports.
#[derive(Clone, Debug, PartialEq, Eq)]
pub struct BwatchError {
    pub height: u32,
    pub target_height: Option<u32>,
    pub message: String,
}

/// A historical scan in progress.
#[derive(Clone, Debug, PartialEq, Eq)]
pub struct BwatchRescan {
    pub watch_type: String,
    pub owners: Vec<String>,
    pub start_height: u32,
    pub current_height: u32,
    pub target_height: u32,
    pub blocks_processed: u64,
    pub blocks_total: u64,
    pub progress_percent: u64,
    pub script_matches_found: u64,
    pub outpoint_matches_found: u64,
    pub outpoints_followed: u64,
}

/// What bwatch says of itself.
#[derive(Clone, Debug, PartialEq, Eq)]
pub struct BwatchStatus {
    pub enabled: bool,
    pub current_height: u32,
    pub backend_height: Option<u32>,
    pub lag: Option<u32>,
    pub caught_up: Option<bool>,
    pub last_poll_error: Option<BwatchError>,
    pub last_rescan_error: Option<BwatchError>,
    pub active_rescans: Vec<BwatchRescan>,
}

/// What a [`BwatchError`] stands for.
#[verifier::ext_equal]
pub struct FaultModel {
    pub height: u32,
    pub target_height: Option<u32>,
    pub message: Seq<char>,
}

impl View for BwatchError {
    type V = FaultModel;

    open spec fn view(&self) -> FaultModel {
        FaultModel {
            height: self.height,
            target_height: self.target_height,
            message: self.message@,
        }
    }
}

/// What a [`BwatchRescan`] stands for.
#[verifier::ext_equal]
pub struct RescanModel {
    pub watch_type: Seq<char>,
    pub owners: Seq<Seq<char>>,
    pub start_height: u32,
    pub current_height: u32,
    pub target_height: u32,
    pub blocks_processed: u64,
    pub blocks_total: u64,
    pub progress_percent: u64,
    pub script_matches_found: u64,
    pub outpoint_matches_found: u64,
    pub outpoints_followed: u64,
}

impl View for BwatchRescan {
    type V = RescanModel;

    open spec fn view(&self) -> RescanModel {
        RescanModel {
            watch_type: self.watch_type@,
            owners: models(self.owners@),
            start_height: self.start_height,
            current_height: self.current_height,
            target_height: self.target_height,
            blocks_processed: self.blocks_processed,
            blocks_total: self.blocks_total,
            progress_percent: self.progress_percent,
            script_matches_found: self.script_matches_found,
            outpoint_matches_found: self.outpoint_matches_found,
            outpoints_followed: self.outpoints_followed,
        }
    }
}

/// What a [`BwatchStatus`] stands for.
#[verifier::ext_equal]
pub struct StatusModel {
    pub enabled: bool,
    pub current_height: u32,
    pub backend_height: Option<u32>,
    pub lag: Option<u32>,
    pub caught_up: Option<bool>,
    pub last_poll_error: Option<FaultModel>,
    pub last_rescan_error: Option<FaultModel>,
    pub active_rescans: Seq<RescanModel>,
}

impl View for BwatchStatus {
    type V = StatusModel;

    open spec fn view(&self) -> StatusModel {
        StatusModel {
            enabled: self.enabled,
            current_height: self.current_height,
            backend_height: self.backend_height,
            lag: self.lag,
            caught_up: self.caught_up,
            last_poll_error: opt_model(self.last_poll_error),
            last_rescan_error: opt_model(self.last_rescan_error),
            active_rescans: models(self.active_rescans@),
        }
    }
}

/// A watch, by one of its owners.
#[derive(Clone, Debug, PartialEq, Eq, PartialOrd, Ord)]
pub enum OwnedWatch {
    Script { owner: String, scriptpubkey: String },
    Outpoint { owner: String, outpoint: String },
    Blockdepth { owner: String, start_block: u32 },
}

/// What an [`OwnedWatch`] stands for.
#[verifier::ext_equal]
pub enum WatchModel {
    Script { owner: Seq<char>, scriptpubkey: Seq<char> },
    Outpoint { owner: Seq<char>, outpoint: Seq<char> },
    Blockdepth { owner: Seq<char>, start_block: u32 },
}

impl View for OwnedWatch {
    type V = WatchModel;

    open spec fn view(&self) -> WatchModel {
        match *self {
            OwnedWatch::Script { owner, scriptpubkey } => WatchModel::Script {
                owner: owner@,
                scriptpubkey: scriptpubkey@,
            },
            OwnedWatch::Outpoint { owner, outpoint } => WatchModel::Outpoint {
                owner: owner@,
                outpoint: outpoint@,
            },
            OwnedWatch::Blockdepth { owner, start_block } => WatchModel::Blockdepth {
                owner: owner@,
                start_block,
            },
        }
    }
}

impl WatchModel {
    /// The owner of a watch.
    pub open spec fn owner(self) -> Seq<char> {
        match self {
            WatchModel::Script { owner, .. } => owner,
            WatchModel::Outpoint { owner, .. } => owner,
            WatchModel::Blockdepth { owner, .. } => owner,
        }
    }

    /// Script watches come first, block depth watches last.
    pub open spec fn kind(self) -> int {
        match self {
            WatchModel::Script { .. } => 0,
            WatchModel::Outpoint { .. } => 1,
            WatchModel::Blockdepth { .. } => 2,
        }
    }

    /// What is watched, where that is a text.
    pub open spec fn target(self) -> Seq<char> {
        match self {
            WatchModel::Script { scriptpubkey, .. } => scriptpubkey,
            WatchModel::Outpoint { outpoint, .. } => outpoint,
            WatchModel::Blockdepth { .. } => Seq::empty(),
        }
    }

    /// The height of a block depth watch.
    pub open spec fn start(self) -> int {
        match self {
            WatchModel::Blockdepth { start_block, .. } => start_block as int,
            _ => 0,
        }
    }
}

impl Ranked for OwnedWatch {
    open spec fn before(a: WatchModel, b: WatchModel) -> bool {
        if a.kind() != b.kind() {
            a.kind() < b.kind()
        } else if a.owner() != b.owner() {
            text_before(a.owner(), b.owner())
        } else if a.target() != b.target() {
            text_before(a.target(), b.target())
        } else {
            a.start() < b.start()
        }
    }

    proof fn before_one_way(a: WatchModel, b: WatchModel) {
        if text_before(a.owner(), b.owner()) && text_before(b.owner(), a.owner()) {
            crate::text::text_before_transitive(a.owner(), b.owner(), a.owner());
            crate::text::text_before_irreflexive(a.owner());
        }
        if text_before(a.target(), b.target()) && text_before(b.target(), a.target()) {
            crate::text::text_before_transitive(a.target(), b.target(), a.target());
            crate::text::text_before_irreflexive(a.target());
        }
    }

    proof fn not_before_chain(a: WatchModel, b: WatchModel, c: WatchModel) {
        if a.owner() != b.owner() {
            crate::text::text_before_total(a.owner(), b.owner());
        }
        if b.owner() != c.owner() {
            crate::text::text_before_total(b.owner(), c.owner());
        }
        if a.target() != b.target() {
            crate::text::text_before_total(a.target(), b.target());
        }
        if b.target() != c.target() {
            crate::text::text_before_total(b.target(), c.target());
        }
        if text_before(c.owner(), b.owner()) && text_before(b.owner(), a.owner()) {
            crate::text::text_before_transitive(c.owner(), b.owner(), a.owner());
        }
        if text_before(c.target(), b.target()) && text_before(b.target(), a.target()) {
            crate::text::text_before_transitive(c.target(), b.target(), a.target());
        }
        if text_before(a.owner(), c.owner()) && text_before(c.owner(), a.owner()) {
            crate::text::text_before_transitive(a.owner(), c.owner(), a.owner());
        }
        if text_before(a.target(), c.target()) && text_before(c.target(), a.target()) {
            crate::text::text_before_transitive(a.target(), c.target(), a.target());
        }
        crate::text::text_before_irreflexive(a.owner());
        crate::text::text_before_irreflexive(a.target());
    }

    fn is_before(&self, other: &Self) -> (r: bool) {
        match (self, other) {
            (
                OwnedWatch::Script { owner: a, scriptpubkey: s },
                OwnedWatch::Script { owner: b, scriptpubkey: t },
            ) => pair_before(a, s, b, t),
            (OwnedWatch::Script { .. }, _) => true,
            (OwnedWatch::Outpoint { .. }, OwnedWatch::Script { .. }) => false,
            (
                OwnedWatch::Outpoint { owner: a, outpoint: s },
                OwnedWatch::Outpoint { owner: b, outpoint: t },
            ) => pair_before(a, s, b, t),
            (OwnedWatch::Outpoint { .. }, _) => true,
            (
                OwnedWatch::Blockdepth { owner: a, start_block: s },
                OwnedWatch::Blockdepth { owner: b, start_block: t },
            ) => if same_text(a.as_str(), b.as_str()) {
                *s < *t
            } else {
                comes_before(a.as_str(), b.as_str())
            },
            (OwnedWatch::Blockdepth { .. }, _) => false,
        }
    }
}

/// Whether one pair of texts comes before another.
fn pair_before(a: &String, s: &String, b: &String, t: &String) -> (r: bool)
    ensures
        r == (if a@ != b@ {
            text_before(a@, b@)
        } else {
            s@ != t@ && text_before(s@, t@)
        }),
{
    if same_text(a.as_str(), b.as_str()) {
        proof {
            crate::text::text_before_irreflexive(s@);
        }
        comes_before(s.as_str(), t.as_str())
    } else {
        comes_before(a.as_str(), b.as_str())
    }
}

impl Distinct for OwnedWatch {
    proof fn same_rank(a: WatchModel, b: WatchModel) {
        if a.owner() != b.owner() {
            crate::text::text_before_total(a.owner(), b.owner());
        }
        if a.target() != b.target() {
            crate::text::text_before_total(a.target(), b.target());
        }
    }
}

impl Duplicate for OwnedWatch {
    fn duplicate(&self) -> (r: Self) {
        match self {
            OwnedWatch::Script { owner, scriptpubkey } => OwnedWatch::Script {
                owner: owner.clone(),
                scriptpubkey: scriptpubkey.clone(),
            },
            OwnedWatch::Outpoint { owner, outpoint } => OwnedWatch::Outpoint {
                owner: owner.clone(),
                outpoint: outpoint.clone(),
            },
            OwnedWatch::Blockdepth { owner, start_block } => OwnedWatch::Blockdepth {
                owner: owner.clone(),
                start_block: *start_block,
            },
        }
    }
}

/// The owner of a watch.
pub fn owned_watch_owner(watch: &OwnedWatch) -> (r: &String)
    ensures
        r@ == watch@.owner(),
{
    match watch {
        OwnedWatch::Script { owner, .. } => owner,
        OwnedWatch::Outpoint { owner, .. } => owner,
        OwnedWatch::Blockdepth { owner, .. } => owner,
    }
}

/// A call of a method of the node.
#[derive(Debug, PartialEq, Eq)]
pub struct RpcCall {
    pub method: String,
    pub params: Json,
}

/// What an [`RpcCall`] stands for.
#[verifier::ext_equal]
pub struct CallModel {
    pub method: Seq<char>,
    pub params: JsonModel,
}

impl View for RpcCall {
    type V = CallModel;

    open spec fn view(&self) -> CallModel {
        CallModel { method: self.method@, params: self.params@ }
    }
}

/// The call of a method with named parameters.
pub open spec fn call_of(method: Seq<char>, params: Seq<(Seq<char>, JsonModel)>) -> CallModel {
    CallModel { method, params: JsonModel::Object(params) }
}

/// A text as a parameter.
pub open spec fn text_param(text: Seq<char>) -> JsonModel {
    JsonModel::Text(text)
}

/// The call of a method with named parameters.
fn call(method: &str, params: Fields) -> (r: RpcCall)
    ensures
        r@ == call_of(method@, params@),
{
    RpcCall { method: method.to_owned(), params: params.done() }
}

/// Asks bwatch for its status.
pub fn bwatch_status() -> (r: RpcCall)
    ensures
        r@ == call_of("bwatch-status"@, Seq::empty()),
{
    call("bwatch-status", Fields::new())
}

/// The parameter for script watches: pairs of an owner and a script.
pub open spec fn watch_list(watches: Seq<(Seq<char>, Seq<char>)>) -> JsonModel {
    JsonModel::List(
        watches.map_values(
            |w: (Seq<char>, Seq<char>)|
                JsonModel::Object(
                    no_fields()
                        .push(("owner"@, text_param(w.0)))
                        .push(("scriptpubkey"@, text_param(w.1))),
                ),
        ),
    )
}

/// The parameter for script watches.
fn watch_list_json(watches: &Vec<(String, String)>) -> (r: Json)
    ensures
        r@ == watch_list(models(watches@)),
{
    let mut items: Vec<Json> = Vec::new();
    let mut i: usize = 0;
    while i < watches.len()
        invariant
            i <= watches.len(),
            items.len() == i,
            forall|j: int|
                0 <= j < i ==> #[trigger] items[j]@ == JsonModel::Object(
                    no_fields()
                        .push(("owner"@, text_param(watches[j].0@)))
                        .push(("scriptpubkey"@, text_param(watches[j].1@))),
                ),
        decreases watches.len() - i,
    {
        let w = &watches[i];
        let mut fields = Fields::new();
        fields.put_text("owner", w.0.as_str());
        fields.put_text("scriptpubkey", w.1.as_str());
        items.push(fields.done());
        i = i + 1;
    }
    let r = Json::of_list(items);
    assert(models(items@) =~= models(watches@).map_values(
        |w: (Seq<char>, Seq<char>)|
            JsonModel::Object(
                no_fields()
                    .push(("owner"@, text_param(w.0)))
                    .push(("scriptpubkey"@, text_param(w.1))),
            ),
    ));
    r
}

/// The call that registers script watches without a scan.
pub open spec fn script_watches_call(
    watches: Seq<(Seq<char>, Seq<char>)>,
    birthheight: u32,
) -> Option<CallModel> {
    if watches.len() == 0 {
        None
    } else {
        Some(
            call_of(
                "addscriptpubkeywatches"@,
                no_fields()
                    .push(("watches"@, watch_list(watches)))
                    .push(("start_block"@, JsonModel::Number(birthheight as u64)))
                    .push(("rescan"@, JsonModel::Bool(false))),
            ),
        )
    }
}

/// Registers script watches without a scan. There is nothing to ask where
/// there are none.
pub fn add_script_watches(watches: &Vec<(String, String)>, birthheight: u32) -> (r: Option<RpcCall>)
    ensures
        opt_model(r) == script_watches_call(models(watches@), birthheight),
{
    if watches.len() == 0 {
        return None;
    }
    let mut fields = Fields::new();
    fields.put("watches", watch_list_json(watches));
    fields.put_number("start_block", birthheight as u64);
    fields.put("rescan", Json::Bool(false));
    Some(call("addscriptpubkeywatches", fields))
}

/// A list of texts as a parameter.
pub open spec fn text_list(texts: Seq<Seq<char>>) -> JsonModel {
    JsonModel::List(texts.map_values(|t: Seq<char>| JsonModel::Text(t)))
}

/// A list of texts as a parameter.
pub(crate) fn text_list_json(texts: &Vec<String>) -> (r: Json)
    ensures
        r@ == text_list(models(texts@)),
{
    let mut items: Vec<Json> = Vec::new();
    let mut i: usize = 0;
    while i < texts.len()
        invariant
            i <= texts.len(),
            items.len() == i,
            forall|j: int| 0 <= j < i ==> #[trigger] items[j]@ == JsonModel::Text(texts[j]@),
        decreases texts.len() - i,
    {
        items.push(Json::of_text(texts[i].as_str()));
        i = i + 1;
    }
    let r = Json::of_list(items);
    assert(models(items@) =~= models(texts@).map_values(|t: Seq<char>| JsonModel::Text(t)));
    r
}

/// The call that rescans the watches of owners.
pub open spec fn owners_rescan_call(owners: Seq<Seq<char>>, start_block: u32) -> Option<CallModel> {
    if owners.len() == 0 {
        None
    } else {
        Some(
            call_of(
                "rescanwatchset"@,
                no_fields()
                    .push(("owners"@, text_list(owners)))
                    .push(("start_block"@, JsonModel::Number(start_block as u64))),
            ),
        )
    }
}

/// Rescans the watches of owners. There is nothing to ask where there are
/// none.
pub fn rescan_watch_owners(owners: &Vec<String>, start_block: u32) -> (r: Option<RpcCall>)
    ensures
        opt_model(r) == owners_rescan_call(models(owners@), start_block),
{
    if owners.len() == 0 {
        return None;
    }
    let mut fields = Fields::new();
    fields.put("owners", text_list_json(owners));
    fields.put_number("start_block", start_block as u64);
    Some(call("rescanwatchset", fields))
}

/// The call that rescans the watches whose owners begin alike.
pub open spec fn prefix_rescan_call(owner_prefix: Seq<char>, start_block: u32) -> CallModel {
    call_of(
        "rescanwatchset"@,
        no_fields()
            .push(("owner_prefix"@, text_param(owner_prefix)))
            .push(("start_block"@, JsonModel::Number(start_block as u64))),
    )
}

/// Rescans the watches whose owners begin alike.
pub fn rescan_watch_prefix(owner_prefix: &str, start_block: u32) -> (r: RpcCall)
    ensures
        r@ == prefix_rescan_call(owner_prefix@, start_block),
{
    let mut fields = Fields::new();
    fields.put_text("owner_prefix", owner_prefix);
    fields.put_number("start_block", start_block as u64);
    call("rescanwatchset", fields)
}

/// The call that scans history for scripts.
pub open spec fn scan_call(watches: Seq<(Seq<char>, Seq<char>)>, start_block: u32) -> CallModel {
    call_of(
        "scanwatchset"@,
        no_fields()
            .push(("watches"@, watch_list(watches)))
            .push(("start_block"@, JsonModel::Number(start_block as u64))),
    )
}

/// Scans history for scripts.
pub fn scan_watch_set(watches: &Vec<(String, String)>, start_block: u32) -> (r: RpcCall)
    ensures
        r@ == scan_call(models(watches@), start_block),
{
    let mut fields = Fields::new();
    fields.put("watches", watch_list_json(watches));
    fields.put_number("start_block", start_block as u64);
    call("scanwatchset", fields)
}

/// Removes a script watch.
pub fn del_script_watch(owner: &str, scriptpubkey: &str) -> (r: RpcCall)
    ensures
        r@ == call_of(
            "delscriptpubkeywatch"@,
            no_fields()
                .push(("owner"@, text_param(owner@)))
                .push(("scriptpubkey"@, text_param(scriptpubkey@))),
        ),
{
    let mut fields = Fields::new();
    fields.put_text("owner", owner);
    fields.put_text("scriptpubkey", scriptpubkey);
    call("delscriptpubkeywatch", fields)
}

/// The call that registers an outpoint watch.
pub open spec fn outpoint_watch_call(
    owner: Seq<char>,
    outpoint: Seq<char>,
    start_block: u32,
    rescan: bool,
) -> CallModel {
    call_of(
        "addoutpointwatch"@,
        no_fields()
            .push(("owner"@, text_param(owner)))
            .push(("outpoint"@, text_param(outpoint)))
            .push(("start_block"@, JsonModel::Number(start_block as u64)))
            .push(("rescan"@, JsonModel::Bool(rescan))),
    )
}

/// Registers an outpoint watch.
pub fn add_outpoint_watch(owner: &str, outpoint: &str, start_block: u32, rescan: bool) -> (r:
    RpcCall)
    ensures
        r@ == outpoint_watch_call(owner@, outpoint@, start_block, rescan),
{
    let mut fields = Fields::new();
    fields.put_text("owner", owner);
    fields.put_text("outpoint", outpoint);
    fields.put_number("start_block", start_block as u64);
    fields.put("rescan", Json::Bool(rescan));
    call("addoutpointwatch", fields)
}

/// Removes an outpoint watch.
pub fn del_outpoint_watch(owner: &str, outpoint: &str) -> (r: RpcCall)
    ensures
        r@ == call_of(
            "deloutpointwatch"@,
            no_fields()
                .push(("owner"@, text_param(owner@)))
                .push(("outpoint"@, text_param(outpoint@))),
        ),
{
    let mut fields = Fields::new();
    fields.put_text("owner", owner);
    fields.put_text("outpoint", outpoint);
    call("deloutpointwatch", fields)
}

/// Removes a block depth watch.
pub fn del_blockdepth_watch(owner: &str, start_block: u32) -> (r: RpcCall)
    ensures
        r@ == call_of(
            "delblockdepthwatch"@,
            no_fields()
                .push(("owner"@, text_param(owner@)))
                .push(("start_block"@, JsonModel::Number(start_block as u64))),
        ),
{
    let mut fields = Fields::new();
    fields.put_text("owner", owner);
    fields.put_number("start_block", start_block as u64);
    call("delblockdepthwatch", fields)
}

/// The call that removes a watch.
pub open spec fn removal_of(watch: WatchModel) -> CallModel {
    match watch {
        WatchModel::Script { owner, scriptpubkey } => call_of(
            "delscriptpubkeywatch"@,
            no_fields()
                .push(("owner"@, text_param(owner)))
                .push(("scriptpubkey"@, text_param(scriptpubkey))),
        ),
        WatchModel::Outpoint { owner, outpoint } => call_of(
            "deloutpointwatch"@,
            no_fields()
                .push(("owner"@, text_param(owner)))
                .push(("outpoint"@, text_param(outpoint))),
        ),
        WatchModel::Blockdepth { owner, start_block } => call_of(
            "delblockdepthwatch"@,
            no_fields()
                .push(("owner"@, text_param(owner)))
                .push(("start_block"@, JsonModel::Number(start_block as u64))),
        ),
    }
}

/// Removes a watch.
pub fn del_owned_watch(watch: &OwnedWatch) -> (r: RpcCall)
    ensures
        r@ == removal_of(watch@),
{
    match watch {
        OwnedWatch::Script { owner, scriptpubkey } => del_script_watch(
            owner.as_str(),
            scriptpubkey.as_str(),
        ),
        OwnedWatch::Outpoint { owner, outpoint } => del_outpoint_watch(
            owner.as_str(),
            outpoint.as_str(),
        ),
        OwnedWatch::Blockdepth { owner, start_block } => del_blockdepth_watch(
            owner.as_str(),
            *start_block,
        ),
    }
}

/// An amount as Bookkeeper writes it.
pub open spec fn msat_text(amount_msat: u64) -> Seq<char> {
    decimal_text(amount_msat as nat) + "msat"@
}

/// An amount as Bookkeeper writes it.
fn msat(amount_msat: u64) -> (r: String)
    ensures
        r@ == msat_text(amount_msat),
{
    let mut r = decimal(amount_msat);
    r.append("msat");
    r
}

/// The call that tells Bookkeeper of a deposit.
pub open spec fn deposit_call(
    account: Seq<char>,
    outpoint: Seq<char>,
    amount_msat: u64,
    timestamp: u64,
    blockheight: u32,
) -> CallModel {
    call_of(
        "injectutxodeposit"@,
        no_fields()
            .push(("account"@, text_param(account)))
            .push(("outpoint"@, text_param(outpoint)))
            .push(("amount_msat"@, text_param(msat_text(amount_msat))))
            .push(("timestamp"@, JsonModel::Number(timestamp)))
            .push(("blockheight"@, JsonModel::Number(blockheight as u64))),
    )
}

/// Tells Bookkeeper of a deposit.
pub fn inject_utxo_deposit(
    account: &str,
    outpoint: &str,
    amount_msat: u64,
    timestamp: u64,
    blockheight: u32,
) -> (r: RpcCall)
    ensures
        r@ == deposit_call(account@, outpoint@, amount_msat, timestamp, blockheight),
{
    let mut fields = Fields::new();
    fields.put_text("account", account);
    fields.put_text("outpoint", outpoint);
    fields.put_text("amount_msat", msat(amount_msat).as_str());
    fields.put_number("timestamp", timestamp);
    fields.put_number("blockheight", blockheight as u64);
    call("injectutxodeposit", fields)
}

/// The call that tells Bookkeeper of a payment to someone else.
pub open spec fn external_deposit_call(
    transfer_from: Seq<char>,
    outpoint: Seq<char>,
    amount_msat: u64,
    timestamp: u64,
    blockheight: u32,
) -> CallModel {
    call_of(
        "injectutxodeposit"@,
        no_fields()
            .push(("account"@, text_param("external"@)))
            .push(("transfer_from"@, text_param(transfer_from)))
            .push(("outpoint"@, text_param(outpoint)))
            .push(("amount_msat"@, text_param(msat_text(amount_msat))))
            .push(("timestamp"@, JsonModel::Number(timestamp)))
            .push(("blockheight"@, JsonModel::Number(blockheight as u64))),
    )
}

/// Tells Bookkeeper of a payment to someone else.
pub fn inject_external_deposit(
    transfer_from: &str,
    outpoint: &str,
    amount_msat: u64,
    timestamp: u64,
    blockheight: u32,
) -> (r: RpcCall)
    ensures
        r@ == external_deposit_call(transfer_from@, outpoint@, amount_msat, timestamp, blockheight),
{
    let mut fields = Fields::new();
    fields.put_text("account", "external");
    fields.put_text("transfer_from", transfer_from);
    fields.put_text("outpoint", outpoint);
    fields.put_text("amount_msat", msat(amount_msat).as_str());
    fields.put_number("timestamp", timestamp);
    fields.put_number("blockheight", blockheight as u64);
    call("injectutxodeposit", fields)
}

/// The call that describes an output in Bookkeeper.
pub open spec fn description_call(outpoint: Seq<char>, description: Seq<char>) -> CallModel {
    call_of(
        "bkpr-editdescriptionbyoutpoint"@,
        no_fields()
            .push(("outpoint"@, text_param(outpoint)))
            .push(("description"@, text_param(description))),
    )
}

/// Describes an output in Bookkeeper.
pub fn describe_utxo(outpoint: &str, description: &str) -> (r: RpcCall)
    ensures
        r@ == description_call(outpoint@, description@),
{
    let mut fields = Fields::new();
    fields.put_text("outpoint", outpoint);
    fields.put_text("description", description);
    call("bkpr-editdescriptionbyoutpoint", fields)
}

/// The call that tells Bookkeeper of a spend.
pub open spec fn spend_call(
    account: Seq<char>,
    outpoint: Seq<char>,
    spending_txid: Seq<char>,
    amount_msat: u64,
    timestamp: u64,
    blockheight: u32,
) -> CallModel {
    call_of(
        "injectutxospend"@,
        no_fields()
            .push(("account"@, text_param(account)))
            .push(("outpoint"@, text_param(outpoint)))
            .push(("spending_txid"@, text_param(spending_txid)))
            .push(("amount_msat"@, text_param(msat_text(amount_msat))))
            .push(("timestamp"@, JsonModel::Number(timestamp)))
            .push(("blockheight"@, JsonModel::Number(blockheight as u64))),
    )
}

/// Tells Bookkeeper of a spend.
pub fn inject_utxo_spend(
    account: &str,
    outpoint: &str,
    spending_txid: &str,
    amount_msat: u64,
    timestamp: u64,
    blockheight: u32,
) -> (r: RpcCall)
    ensures
        r@ == spend_call(account@, outpoint@, spending_txid@, amount_msat, timestamp, blockheight),
{
    let mut fields = Fields::new();
    fields.put_text("account", account);
    fields.put_text("outpoint", outpoint);
    fields.put_text("spending_txid", spending_txid);
    fields.put_text("amount_msat", msat(amount_msat).as_str());
    fields.put_number("timestamp", timestamp);
    fields.put_number("blockheight", blockheight as u64);
    call("injectutxospend", fields)
}

/// Asks for every watch of the node.
pub fn list_watches() -> (r: RpcCall)
    ensures
        r@ == call_of("listwatch"@, no_fields()),
{
    call("listwatch", Fields::new())
}

/// The watch of a type that an entry of a listing gives for an owner: none for
/// another type.
pub open spec fn listed_watch(entry: JsonModel, owner: Seq<char>) -> Result<
    Option<WatchModel>,
    TrackerError,
> {
    let watch_type = entry.text_field("type"@);
    if watch_type == Some("scriptpubkey"@) {
        match entry.text_field("scriptpubkey"@) {
            Some(scriptpubkey) => Ok(Some(WatchModel::Script { owner, scriptpubkey })),
            None => Err(TrackerError::WatchScriptMissing),
        }
    } else if watch_type == Some("outpoint"@) {
        match entry.text_field("outpoint"@) {
            Some(outpoint) => Ok(Some(WatchModel::Outpoint { owner, outpoint })),
            None => Err(TrackerError::WatchOutpointMissing),
        }
    } else if watch_type == Some("blockdepth"@) {
        match entry.number_field("start_block"@) {
            Some(height) => if height <= u32::MAX {
                Ok(Some(WatchModel::Blockdepth { owner, start_block: height as u32 }))
            } else {
                Err(TrackerError::WatchStartMissing)
            },
            None => Err(TrackerError::WatchStartMissing),
        }
    } else {
        Ok(None)
    }
}

/// The watches that an entry of a listing gives for those of its first `count`
/// owners that begin with `prefix`.
pub open spec fn entry_watches(
    entry: JsonModel,
    owners: Seq<JsonModel>,
    count: nat,
    prefix: Seq<char>,
) -> Result<Seq<WatchModel>, TrackerError>
    decreases count,
{
    if count == 0 {
        Ok(Seq::empty())
    } else {
        match entry_watches(entry, owners, (count - 1) as nat, prefix) {
            Err(e) => Err(e),
            Ok(watches) => match owners[count - 1].text() {
                None => Ok(watches),
                Some(owner) => if !begins_with(owner, prefix) {
                    Ok(watches)
                } else {
                    match listed_watch(entry, owner) {
                        Err(e) => Err(e),
                        Ok(None) => Ok(watches),
                        Ok(Some(watch)) => Ok(watches.push(watch)),
                    }
                },
            },
        }
    }
}

/// The watches that the first `count` entries of a listing give for owners
/// that begin with `prefix`.
pub open spec fn listed_watches(entries: Seq<JsonModel>, count: nat, prefix: Seq<char>) -> Result<
    Seq<WatchModel>,
    TrackerError,
>
    decreases count,
{
    if count == 0 {
        Ok(Seq::empty())
    } else {
        let entry = entries[count - 1];
        match listed_watches(entries, (count - 1) as nat, prefix) {
            Err(e) => Err(e),
            Ok(watches) => match entry.list_field("owners"@) {
                None => Err(TrackerError::WatchOwnersMissing),
                Some(owners) => match entry_watches(entry, owners, owners.len(), prefix) {
                    Err(e) => Err(e),
                    Ok(more) => Ok(watches + more),
                },
            },
        }
    }
}

/// The watches that a reply lists for owners that begin with `prefix`.
pub open spec fn reply_watches(reply: JsonModel, prefix: Seq<char>) -> Result<
    Seq<WatchModel>,
    TrackerError,
> {
    match reply.list_field("watches"@) {
        None => Err(TrackerError::WatchesMissing),
        Some(entries) => listed_watches(entries, entries.len(), prefix),
    }
}

/// What was refused for the first owners is refused for more of them.
proof fn refused_owner_stays(
    entry: JsonModel,
    owners: Seq<JsonModel>,
    count: nat,
    more: nat,
    prefix: Seq<char>,
)
    requires
        count <= more,
        entry_watches(entry, owners, count, prefix) is Err,
    ensures
        entry_watches(entry, owners, more, prefix) == entry_watches(entry, owners, count, prefix),
    decreases more,
{
    if count < more {
        refused_owner_stays(entry, owners, count, (more - 1) as nat, prefix);
    }
}

/// What was refused for the first entries is refused for more of them.
proof fn refused_entry_stays(entries: Seq<JsonModel>, count: nat, more: nat, prefix: Seq<char>)
    requires
        count <= more,
        listed_watches(entries, count, prefix) is Err,
    ensures
        listed_watches(entries, more, prefix) == listed_watches(entries, count, prefix),
    decreases more,
{
    if count < more {
        refused_entry_stays(entries, count, (more - 1) as nat, prefix);
    }
}

/// What a result of watches stands for.
pub open spec fn watches_model(r: Result<Vec<OwnedWatch>, TrackerError>) -> Result<
    Seq<WatchModel>,
    TrackerError,
> {
    match r {
        Ok(watches) => Ok(models(watches@)),
        Err(e) => Err(e),
    }
}

/// The watch that an entry of a listing gives for an owner.
fn read_watch(entry: &Json, owner: &String) -> (r: Result<Option<OwnedWatch>, TrackerError>)
    ensures
        (match r {
            Ok(watch) => Ok(opt_model(watch)),
            Err(e) => Err(e),
        }) == listed_watch(entry@, owner@),
{
    let watch_type = match entry.get_str("type") {
        None => {
            return Ok(None);
        },
        Some(watch_type) => watch_type,
    };
    if same_text(watch_type.as_str(), "scriptpubkey") {
        match entry.get_str("scriptpubkey") {
            Some(script) => Ok(
                Some(
                    OwnedWatch::Script { owner: owner.clone(), scriptpubkey: script.clone() },
                ),
            ),
            None => Err(TrackerError::WatchScriptMissing),
        }
    } else if same_text(watch_type.as_str(), "outpoint") {
        match entry.get_str("outpoint") {
            Some(outpoint) => Ok(
                Some(OwnedWatch::Outpoint { owner: owner.clone(), outpoint: outpoint.clone() }),
            ),
            None => Err(TrackerError::WatchOutpointMissing),
        }
    } else if same_text(watch_type.as_str(), "blockdepth") {
        match entry.get_u64("start_block") {
            Some(height) => if height <= u32::MAX as u64 {
                Ok(
                    Some(
                        OwnedWatch::Blockdepth {
                            owner: owner.clone(),
                            start_block: height as u32,
                        },
                    ),
                )
            } else {
                Err(TrackerError::WatchStartMissing)
            },
            None => Err(TrackerError::WatchStartMissing),
        }
    } else {
        Ok(None)
    }
}

/// The watches that an entry of a listing gives.
fn read_entry(entry: &Json, owners: &Vec<Json>, prefix: &str) -> (r: Result<
    Vec<OwnedWatch>,
    TrackerError,
>)
    ensures
        watches_model(r) == entry_watches(
            entry@,
            models(owners@),
            owners@.len(),
            prefix@,
        ),
{
    let ghost names = models(owners@);
    let mut watches: Vec<OwnedWatch> = Vec::new();
    let mut i: usize = 0;
    assert(models(watches@) =~= Seq::<WatchModel>::empty());
    while i < owners.len()
        invariant
            i <= owners.len(),
            names == models(owners@),
            Ok::<Seq<WatchModel>, TrackerError>(models(watches@)) == entry_watches(
                entry@,
                names,
                i as nat,
                prefix@,
            ),
        decreases owners.len() - i,
    {
        assert(names[i as int] == owners[i as int]@);
        let ghost before = models(watches@);
        match owners[i].as_str() {
            None => {},
            Some(owner) => {
                if starts_with(owner.as_str(), prefix) {
                    match read_watch(entry, owner) {
                        Err(e) => {
                            proof {
                                refused_owner_stays(
                                    entry@,
                                    names,
                                    (i + 1) as nat,
                                    owners@.len(),
                                    prefix@,
                                );
                            }
                            return Err(e);
                        },
                        Ok(None) => {},
                        Ok(Some(watch)) => {
                            watches.push(watch);
                            assert(models(watches@) =~= before.push(watch@));
                        },
                    }
                }
            },
        }
        i = i + 1;
    }
    Ok(watches)
}

/// Reads from a listing the watches of owners that begin with `owner_prefix`.
pub fn list_owned_watches(reply: &Json, owner_prefix: &str) -> (r: Result<
    Vec<OwnedWatch>,
    TrackerError,
>)
    ensures
        watches_model(r) == reply_watches(reply@, owner_prefix@),
{
    let entries = match reply.get_list("watches") {
        None => {
            return Err(TrackerError::WatchesMissing);
        },
        Some(entries) => entries,
    };
    let ghost all = models(entries@);
    let mut watches: Vec<OwnedWatch> = Vec::new();
    let mut i: usize = 0;
    assert(models(watches@) =~= Seq::<WatchModel>::empty());
    while i < entries.len()
        invariant
            i <= entries.len(),
            all == models(entries@),
            Ok::<Seq<WatchModel>, TrackerError>(models(watches@)) == listed_watches(
                all,
                i as nat,
                owner_prefix@,
            ),
            reply_watches(reply@, owner_prefix@) == listed_watches(
                all,
                entries@.len(),
                owner_prefix@,
            ),
        decreases entries.len() - i,
    {
        let entry = &entries[i];
        assert(all[i as int] == entry@);
        let ghost before = models(watches@);
        let read = match entry.get_list("owners") {
            None => Err(TrackerError::WatchOwnersMissing),
            Some(owners) => read_entry(entry, owners, owner_prefix),
        };
        match read {
            Err(e) => {
                proof {
                    refused_entry_stays(all, (i + 1) as nat, entries@.len(), owner_prefix@);
                }
                return Err(e);
            },
            Ok(more) => {
                let mut more = more;
                let ghost added = more@;
                watches.append(&mut more);
                assert(models(watches@) =~= before + models(added));
            },
        }
        i = i + 1;
    }
    Ok(watches)
}

/// The call that asks Bookkeeper for the events of an account.
pub open spec fn account_events_call(account: Seq<char>) -> CallModel {
    call_of("bkpr-listaccountevents"@, no_fields().push(("account"@, text_param(account))))
}

/// Asks Bookkeeper for the events of an account.
pub fn account_events(account: &str) -> (r: RpcCall)
    ensures
        r@ == account_events_call(account@),
{
    let mut fields = Fields::new();
    fields.put_text("account", account);
    call("bkpr-listaccountevents", fields)
}

/// Reads the events of an account from Bookkeeper's reply.
pub fn bookkeeper_account_events(reply: &Json) -> (r: Result<&Vec<Json>, TrackerError>)
    ensures
        match r {
            Ok(events) => reply@.list_field("events"@) == Some(models(events@)),
            Err(e) => reply@.list_field("events"@) is None && e == TrackerError::EventsMissing,
        },
{
    match reply.get_list("events") {
        Some(events) => Ok(events),
        None => Err(TrackerError::EventsMissing),
    }
}

/// An entry of the datastore.
#[derive(Clone, Debug)]
pub struct DatastoreEntry {
    pub key: Vec<String>,
    pub generation: Option<u64>,
    pub string: Option<String>,
}

/// The key of the record of a descriptor.
pub open spec fn record_key(name: Seq<char>) -> Seq<Seq<char>> {
    seq![STORE_PREFIX@, STORE_DESCRIPTORS@, name]
}

/// The key of an issued address.
pub open spec fn address_key(name: Seq<char>, branch: u32, index: u32) -> Seq<Seq<char>> {
    seq![
        STORE_PREFIX@,
        STORE_ADDRESSES@,
        name,
        decimal_text(branch as nat),
        decimal_text(index as nat),
    ]
}

/// The key of the record of a descriptor.
fn record_key_parts(name: &str) -> (r: Vec<String>)
    ensures
        models(r@) == record_key(name@),
{
    let r = vec![STORE_PREFIX.to_owned(), STORE_DESCRIPTORS.to_owned(), name.to_owned()];
    assert(models(r@) =~= record_key(name@));
    r
}

/// The key of an issued address.
fn address_key_parts(name: &str, branch: u32, index: u32) -> (r: Vec<String>)
    ensures
        models(r@) == address_key(name@, branch, index),
{
    let r = vec![
        STORE_PREFIX.to_owned(),
        STORE_ADDRESSES.to_owned(),
        name.to_owned(),
        decimal(branch as u64),
        decimal(index as u64),
    ];
    assert(models(r@) =~= address_key(name@, branch, index));
    r
}

/// The call that asks for the entries directly below a key.
pub open spec fn children_call(key: Seq<Seq<char>>) -> CallModel {
    call_of("listdatastore"@, no_fields().push(("key"@, text_list(key))))
}

/// Asks for the entries directly below a key.
pub fn list_datastore_children(key: &Vec<String>) -> (r: RpcCall)
    ensures
        r@ == children_call(models(key@)),
{
    let mut fields = Fields::new();
    fields.put("key", text_list_json(key));
    call("listdatastore", fields)
}

/// The call that asks for the records of all descriptors.
pub open spec fn records_call() -> CallModel {
    children_call(seq![STORE_PREFIX@, STORE_DESCRIPTORS@])
}

/// Asks for the records of all descriptors.
pub fn load_records() -> (r: RpcCall)
    ensures
        r@ == records_call(),
{
    let key = vec![STORE_PREFIX.to_owned(), STORE_DESCRIPTORS.to_owned()];
    assert(models(key@) =~= seq![STORE_PREFIX@, STORE_DESCRIPTORS@]);
    list_datastore_children(&key)
}

/// The call that asks for the descriptors that have issued addresses.
pub open spec fn addresses_call() -> CallModel {
    children_call(seq![STORE_PREFIX@, STORE_ADDRESSES@])
}

/// Asks for the descriptors that have issued addresses.
pub fn load_issued_addresses() -> (r: RpcCall)
    ensures
        r@ == addresses_call(),
{
    let key = vec![STORE_PREFIX.to_owned(), STORE_ADDRESSES.to_owned()];
    assert(models(key@) =~= seq![STORE_PREFIX@, STORE_ADDRESSES@]);
    list_datastore_children(&key)
}

/// The parameters that store a text at a key: in place of the generation that
/// was read, or as a new entry.
pub open spec fn store_params(
    key: Seq<Seq<char>>,
    data: Seq<char>,
    generation: Option<u64>,
) -> Seq<(Seq<char>, JsonModel)> {
    let base = no_fields().push(("key"@, text_list(key))).push(("string"@, text_param(data)));
    match generation {
        Some(generation) => base.push(("mode"@, text_param("must-replace"@))).push(
            ("generation"@, JsonModel::Number(generation)),
        ),
        None => base.push(("mode"@, text_param("must-create"@))),
    }
}

/// The parameters that delete a key, of the generation that was read.
pub open spec fn delete_params(key: Seq<Seq<char>>, generation: Option<u64>) -> Seq<
    (Seq<char>, JsonModel),
> {
    let base = no_fields().push(("key"@, text_list(key)));
    match generation {
        Some(generation) => base.push(("generation"@, JsonModel::Number(generation))),
        None => base,
    }
}

/// Stores a text at a key.
fn store_call(key: &Vec<String>, data: &str, generation: Option<u64>) -> (r: RpcCall)
    ensures
        r@ == call_of("datastore"@, store_params(models(key@), data@, generation)),
{
    let mut fields = Fields::new();
    fields.put("key", text_list_json(key));
    fields.put_text("string", data);
    match generation {
        Some(generation) => {
            fields.put_text("mode", "must-replace");
            fields.put_number("generation", generation);
        },
        None => {
            fields.put_text("mode", "must-create");
        },
    }
    call("datastore", fields)
}

/// Deletes a key.
fn delete_call(key: &Vec<String>, generation: Option<u64>) -> (r: RpcCall)
    ensures
        r@ == call_of("deldatastore"@, delete_params(models(key@), generation)),
{
    let mut fields = Fields::new();
    fields.put("key", text_list_json(key));
    match generation {
        Some(generation) => {
            fields.put_number("generation", generation);
        },
        None => {},
    }
    call("deldatastore", fields)
}

/// The call that stores a record, given as `data`.
pub open spec fn record_store(record: RecordModel, data: Seq<char>) -> CallModel {
    call_of(
        "datastore"@,
        store_params(record_key(record.config.name), data, record.generation),
    )
}

/// Stores a record, given as `data`.
pub fn save_record(record: &DescriptorRecord, data: &str) -> (r: RpcCall)
    ensures
        r@ == record_store(record@, data@),
{
    let key = record_key_parts(record.config.name.as_str());
    store_call(&key, data, record.generation)
}

/// The call that deletes a record.
pub open spec fn record_deletion(record: RecordModel) -> CallModel {
    call_of("deldatastore"@, delete_params(record_key(record.config.name), record.generation))
}

/// Deletes a record.
pub fn delete_record(record: &DescriptorRecord) -> (r: RpcCall)
    ensures
        r@ == record_deletion(record@),
{
    let key = record_key_parts(record.config.name.as_str());
    delete_call(&key, record.generation)
}

/// The call that stores an issued address, given as `data`.
pub open spec fn address_store(address: IssuedModel, data: Seq<char>) -> CallModel {
    call_of(
        "datastore"@,
        store_params(
            address_key(address.name, address.branch, address.index),
            data,
            address.generation,
        ),
    )
}

/// Stores an issued address, given as `data`.
pub fn save_issued_address(address: &IssuedAddress, data: &str) -> (r: RpcCall)
    ensures
        r@ == address_store(address@, data@),
{
    let key = address_key_parts(address.name.as_str(), address.branch, address.index);
    store_call(&key, data, address.generation)
}

/// Those of a descriptor's issued addresses that stand before position
/// `count` of a list, as calls that delete them.
pub open spec fn address_deletions(
    addresses: Seq<IssuedModel>,
    count: nat,
    name: Seq<char>,
) -> Seq<CallModel>
    decreases count,
{
    if count == 0 {
        Seq::empty()
    } else {
        let rest = address_deletions(addresses, (count - 1) as nat, name);
        let address = addresses[count - 1];
        if address.name == name {
            rest.push(
                call_of(
                    "deldatastore"@,
                    delete_params(
                        address_key(address.name, address.branch, address.index),
                        address.generation,
                    ),
                ),
            )
        } else {
            rest
        }
    }
}

/// Deletes the issued addresses of a descriptor.
pub fn delete_issued_addresses(addresses: &Vec<IssuedAddress>, name: &str) -> (r: Vec<RpcCall>)
    ensures
        models(r@) == address_deletions(models(addresses@), addresses@.len(), name@),
{
    let ghost all = models(addresses@);
    let mut calls: Vec<RpcCall> = Vec::new();
    let mut i: usize = 0;
    assert(models(calls@) =~= Seq::<CallModel>::empty());
    while i < addresses.len()
        invariant
            i <= addresses.len(),
            all == models(addresses@),
            models(calls@) == address_deletions(all, i as nat, name@),
        decreases addresses.len() - i,
    {
        let address = &addresses[i];
        assert(all[i as int] == address@);
        if same_text(address.name.as_str(), name) {
            let ghost before = models(calls@);
            let key = address_key_parts(address.name.as_str(), address.branch, address.index);
            let deletion = delete_call(&key, address.generation);
            calls.push(deletion);
            assert(models(calls@) =~= before.push(deletion@));
        }
        i = i + 1;
    }
    calls
}

/// The part of a key at a depth, where the key ends there.
pub fn child_part(key: &Vec<String>, depth: usize) -> (r: Option<&String>)
    requires
        depth < usize::MAX,
    ensures
        opt_model(r) == (if key.len() == depth + 1 {
            Some(key[depth as int]@)
        } else {
            None
        }),
{
    if key.len() == depth + 1 {
        Some(&key[depth])
    } else {
        None
    }
}

/// A key is that of a descriptor's record.
pub open spec fn is_record_key(key: Seq<Seq<char>>) -> bool {
    exists|name: Seq<char>| key == #[trigger] record_key(name)
}

/// Whether a key is that of a descriptor's record.
pub fn is_record_entry(key: &Vec<String>) -> (r: bool)
    ensures
        r == is_record_key(models(key@)),
{
    let r = key.len() == 3 && same_text(key[0].as_str(), STORE_PREFIX) && same_text(
        key[1].as_str(),
        STORE_DESCRIPTORS,
    );
    proof {
        if r {
            assert(models(key@) =~= record_key(key[2]@));
        }
        if exists|name: Seq<char>| models(key@) == #[trigger] record_key(name) {
            let name = choose|name: Seq<char>| models(key@) == #[trigger] record_key(name);
            assert(models(key@).len() == 3);
            assert(models(key@)[0] == key[0]@ && models(key@)[1] == key[1]@);
        }
    }
    r
}

/// The text of an entry that must hold one.
pub fn entry_text(entry: &DatastoreEntry) -> (r: Result<&String, TrackerError>)
    ensures
        match r {
            Ok(text) => opt_text(entry.string) == Some(text@),
            Err(e) => entry.string is None && e == TrackerError::EntryNotText,
        },
{
    match &entry.string {
        Some(text) => Ok(text),
        None => Err(TrackerError::EntryNotText),
    }
}

/// What a refusal says of a record under the key of another descriptor.
pub open spec fn misnamed_text(key: Seq<char>, name: Seq<char>) -> Seq<char> {
    key + "' contains descriptor named '"@ + name
}

/// A record that was read from the key of a descriptor, with the generation of
/// the entry: it must be that descriptor's.
pub open spec fn accepted_record(
    key: Seq<char>,
    record: RecordModel,
    generation: Option<u64>,
) -> Result<RecordModel, RefusalModel> {
    if record.config.name == key {
        Ok(RecordModel { generation, ..record })
    } else {
        Err(refusal_of(TrackerError::RecordMisnamed, misnamed_text(key, record.config.name)))
    }
}

/// Accepts a record that was read from the key of a descriptor: it must be
/// that descriptor's. It keeps the generation of the entry.
pub fn accept_record(key: &str, record: DescriptorRecord, generation: Option<u64>) -> (r: Result<
    DescriptorRecord,
    Refusal,
>)
    ensures
        match accepted_record(key@, record@, generation) {
            Ok(accepted) => r is Ok && r->Ok_0@ == accepted,
            Err(refusal) => r is Err && r->Err_0@ == refusal,
        },
{
    if !same_text(record.config.name.as_str(), key) {
        let subject = around(key, "' contains descriptor named '", record.config.name.as_str());
        return Err(Refusal::of(TrackerError::RecordMisnamed, subject.as_str()));
    }
    let mut record = record;
    record.generation = generation;
    Ok(record)
}

/// A key has the shape of that of an issued address.
pub open spec fn is_address_key(key: Seq<Seq<char>>) -> bool {
    key.len() == 5 && key[0] == STORE_PREFIX@ && key[1] == STORE_ADDRESSES@
}

/// Whether a key has the shape of that of an issued address.
pub fn is_address_entry(key: &Vec<String>) -> (r: bool)
    ensures
        r == is_address_key(models(key@)),
{
    assert(key.len() == 5 ==> models(key@)[0] == key[0]@ && models(key@)[1] == key[1]@);
    key.len() == 5 && same_text(key[0].as_str(), STORE_PREFIX) && same_text(
        key[1].as_str(),
        STORE_ADDRESSES,
    )
}

/// An issued address that was read from a key, with the generation of the entry:
/// the key must be the address's own.
pub open spec fn accepted_address(
    key: Seq<Seq<char>>,
    address: IssuedModel,
    generation: Option<u64>,
) -> Result<IssuedModel, TrackerError> {
    if key[2] == address.name && key[3] == decimal_text(address.branch as nat) && key[4]
        == decimal_text(address.index as nat) {
        Ok(IssuedModel { generation, ..address })
    } else {
        Err(TrackerError::AddressMisplaced)
    }
}

/// Accepts an issued address that was read from a key: the key must be the
/// address's own. It keeps the generation of the entry.
pub fn accept_address(key: &Vec<String>, address: IssuedAddress, generation: Option<u64>) -> (r:
    Result<IssuedAddress, TrackerError>)
    requires
        key.len() == 5,
    ensures
        match accepted_address(models(key@), address@, generation) {
            Ok(accepted) => r is Ok && r->Ok_0@ == accepted,
            Err(fault) => r == Err::<IssuedAddress, TrackerError>(fault),
        },
{
    assert(models(key@)[2] == key[2]@ && models(key@)[3] == key[3]@ && models(key@)[4]
        == key[4]@);
    let matching = same_text(key[2].as_str(), address.name.as_str()) && same_text(
        key[3].as_str(),
        decimal(address.branch as u64).as_str(),
    ) && same_text(key[4].as_str(), decimal(address.index as u64).as_str());
    if !matching {
        return Err(TrackerError::AddressMisplaced);
    }
    let mut address = address;
    address.generation = generation;
    Ok(address)
}

/// An output of a transaction.
#[derive(Clone, Debug, PartialEq, Eq)]
pub struct TxOutput {
    pub value_sat: u64,
    pub script: Vec<u8>,
}

/// What a [`TxOutput`] stands for.
#[verifier::ext_equal]
pub struct OutputModel {
    pub value_sat: u64,
    pub script: Seq<u8>,
}

impl View for TxOutput {
    type V = OutputModel;

    open spec fn view(&self) -> OutputModel {
        OutputModel { value_sat: self.value_sat, script: self.script@ }
    }
}

/// What is read of a transaction: its id, its outputs, and the outpoints that
/// its inputs spend.
#[derive(Clone, Debug, PartialEq, Eq)]
pub struct ParsedTransaction {
    pub txid: String,
    pub outputs: Vec<TxOutput>,
    pub inputs: Vec<String>,
}

/// What a [`ParsedTransaction`] stands for.
#[verifier::ext_equal]
pub struct TransactionModel {
    pub txid: Seq<char>,
    pub outputs: Seq<OutputModel>,
    pub inputs: Seq<Seq<char>>,
}

impl View for ParsedTransaction {
    type V = TransactionModel;

    open spec fn view(&self) -> TransactionModel {
        TransactionModel {
            txid: self.txid@,
            outputs: models(self.outputs@),
            inputs: models(self.inputs@),
        }
    }
}

/// The transaction that a hexadecimal text encodes, or why it encodes none.
pub uninterp spec fn decoded_transaction(raw: Seq<char>) -> Result<TransactionModel, Seq<char>>;

/// The time in the header of the block that a hexadecimal text encodes, or why
/// it encodes none.
pub uninterp spec fn decoded_block_time(raw: Seq<char>) -> Result<u32, Seq<char>>;

/// Calls `bitcoin::consensus::encode::deserialize_hex` for a transaction, and
/// gives its id as `Transaction::compute_txid` writes it, the value in satoshis
/// and the script of each output, and the outpoint that each input spends. Its
/// error is given as the text that `anyhow` shows of it and of its sources. What
/// the encoding of a transaction is goes unsaid here.
#[verifier::external_body]
fn decode_transaction(raw: &str) -> (r: Result<ParsedTransaction, String>)
    ensures
        match r {
            Ok(tx) => decoded_transaction(raw@) == Ok::<TransactionModel, Seq<char>>(tx@),
            Err(cause) => decoded_transaction(raw@) == Err::<TransactionModel, Seq<char>>(cause@),
        },
{
    let tx: Transaction = consensus::encode::deserialize_hex(raw)
        .map_err(|e| format!("{:#}", anyhow::Error::new(e)))?;
    Ok(ParsedTransaction {
        txid: tx.compute_txid().to_string(),
        outputs: tx.output.iter().map(|output| TxOutput {
            value_sat: output.value.to_sat(),
            script: output.script_pubkey.to_bytes(),
        }).collect(),
        inputs: tx.input.iter().map(|input| input.previous_output.to_string()).collect(),
    })
}

/// Calls `bitcoin::consensus::encode::deserialize_hex` for a block and gives
/// the time of its header. Its error is given as the text that `anyhow` shows of
/// it and of its sources. What the encoding of a block is goes unsaid here.
#[verifier::external_body]
fn decode_block_time(raw: &str) -> (r: Result<u32, String>)
    ensures
        match r {
            Ok(time) => decoded_block_time(raw@) == Ok::<u32, Seq<char>>(time),
            Err(cause) => decoded_block_time(raw@) == Err::<u32, Seq<char>>(cause@),
        },
{
    let block: Block = consensus::encode::deserialize_hex(raw)
        .map_err(|e| format!("{:#}", anyhow::Error::new(e)))?;
    Ok(block.header.time)
}

/// Reads a transaction.
pub fn parse_transaction(raw: &str) -> (r: Result<ParsedTransaction, Reason>)
    ensures
        match (r, decoded_transaction(raw@)) {
            (Ok(tx), Ok(decoded)) => tx@ == decoded,
            (Err(e), Err(cause)) => e@ == caused(TrackerError::TransactionInvalid, cause),
            _ => false,
        },
{
    match decode_transaction(raw) {
        Ok(tx) => Ok(tx),
        Err(cause) => Err(Reason { error: TrackerError::TransactionInvalid, cause }),
    }
}

/// The call that asks for the block at a height.
pub open spec fn raw_block_call(height: u32) -> CallModel {
    call_of(
        "getrawblockbyheight"@,
        no_fields().push(("height"@, JsonModel::Number(height as u64))),
    )
}

/// Asks for the block at a height.
pub fn raw_block(height: u32) -> (r: RpcCall)
    ensures
        r@ == raw_block_call(height),
{
    let mut fields = Fields::new();
    fields.put_number("height", height as u64);
    call("getrawblockbyheight", fields)
}

/// The time of the block at a height, as the node's reply gives it.
pub open spec fn block_time(reply: JsonModel, height: u32) -> Result<u64, ReasonModel> {
    match reply.text_field("block"@) {
        None => Err(plain(TrackerError::BlockMissing { height })),
        Some(raw) => match decoded_block_time(raw) {
            Err(cause) => Err(caused(TrackerError::BlockInvalid { height }, cause)),
            Ok(time) => Ok(time as u64),
        },
    }
}

/// Reads the time of the block at a height from the node's reply.
pub fn block_timestamp(reply: &Json, height: u32) -> (r: Result<u64, Reason>)
    ensures
        (match r {
            Ok(time) => Ok(time),
            Err(e) => Err(e@),
        }) == block_time(reply@, height),
{
    match reply.get_str("block") {
        None => Err(Reason::of(TrackerError::BlockMissing { height })),
        Some(raw) => match decode_block_time(raw.as_str()) {
            Err(cause) => Err(Reason { error: TrackerError::BlockInvalid { height }, cause }),
            Ok(time) => Ok(time as u64),
        },
    }
}

/// A field is found by its name among fields of other names.
proof fn field_at(call: CallModel, fields: Seq<(Seq<char>, JsonModel)>, i: int)
    requires
        call.params == JsonModel::Object(fields),
        0 <= i < fields.len(),
        forall|j: int| 0 <= j < i ==> (#[trigger] fields[j]).0 != fields[i].0,
    ensures
        call.params.field(fields[i].0) == Some(fields[i].1),
{
    named_field_at(fields, i);
}

/// The names of the parameters are told apart.
proof fn parameter_names_differ()
    ensures
        "owner"@.len() == 5,
        "outpoint"@.len() == 8,
        "start_block"@.len() == 11,
        "rescan"@.len() == 6,
        "watches"@.len() == 7,
        "owners"@.len() == 6,
        "owner_prefix"@.len() == 12,
        "scriptpubkey"@.len() == 12,
        "account"@.len() == 7,
        "amount_msat"@.len() == 11,
        "timestamp"@.len() == 9,
        "blockheight"@.len() == 11,
        "transfer_from"@.len() == 13,
        "description"@.len() == 11,
        "spending_txid"@.len() == 13,
        "amount_msat"@ != "blockheight"@,
{
    reveal_strlit("owner");
    reveal_strlit("outpoint");
    reveal_strlit("start_block");
    reveal_strlit("rescan");
    reveal_strlit("watches");
    reveal_strlit("owners");
    reveal_strlit("owner_prefix");
    reveal_strlit("scriptpubkey");
    reveal_strlit("account");
    reveal_strlit("amount_msat");
    reveal_strlit("timestamp");
    reveal_strlit("blockheight");
    reveal_strlit("transfer_from");
    reveal_strlit("description");
    reveal_strlit("spending_txid");
    assert("amount_msat"@[0] == 'a');
    assert("blockheight"@[0] == 'b');
}

/// The node is asked to watch an outpoint for its owner from a block on.
pub proof fn outpoint_watch_is_asked(
    owner: Seq<char>,
    outpoint: Seq<char>,
    start_block: u32,
    rescan: bool,
)
    ensures
        ({
            let call = outpoint_watch_call(owner, outpoint, start_block, rescan);
            &&& call.method == "addoutpointwatch"@
            &&& call.params.text_field("owner"@) == Some(owner)
            &&& call.params.text_field("outpoint"@) == Some(outpoint)
            &&& call.params.number_field("start_block"@) == Some(start_block as u64)
            &&& call.params.field("rescan"@) == Some(JsonModel::Bool(rescan))
        }),
{
    let call = outpoint_watch_call(owner, outpoint, start_block, rescan);
    let fields = call.params->Object_0;
    parameter_names_differ();
    field_at(call, fields, 0);
    field_at(call, fields, 1);
    field_at(call, fields, 2);
    field_at(call, fields, 3);
}

/// An entry of a list of script watches names its owner and its script.
proof fn watch_entry_is_named(watches: Seq<(Seq<char>, Seq<char>)>, k: int)
    requires
        0 <= k < watches.len(),
    ensures
        watch_list(watches).items() is Some,
        watch_list(watches).items()->Some_0.len() == watches.len(),
        watch_list(watches).items()->Some_0[k].text_field("owner"@) == Some(watches[k].0),
        watch_list(watches).items()->Some_0[k].text_field("scriptpubkey"@) == Some(watches[k].1),
{
    parameter_names_differ();
    let fields = watch_list(watches).items()->Some_0[k]->Object_0;
    named_field_at(fields, 0);
    named_field_at(fields, 1);
}

/// The node is asked to watch each script for its owner, without a scan, where
/// there are any.
pub proof fn script_watches_are_asked(
    watches: Seq<(Seq<char>, Seq<char>)>,
    birthheight: u32,
    k: int,
)
    ensures
        script_watches_call(watches, birthheight) is Some <==> watches.len() > 0,
        script_watches_call(watches, birthheight) matches Some(call) ==> {
            let items = call.params.list_field("watches"@)->Some_0;
            &&& call.method == "addscriptpubkeywatches"@
            &&& call.params.list_field("watches"@) is Some
            &&& call.params.number_field("start_block"@) == Some(birthheight as u64)
            &&& call.params.field("rescan"@) == Some(JsonModel::Bool(false))
            &&& items.len() == watches.len()
            &&& 0 <= k < watches.len() ==> items[k].text_field("owner"@) == Some(watches[k].0)
                && items[k].text_field("scriptpubkey"@) == Some(watches[k].1)
        },
{
    if watches.len() > 0 {
        let call = script_watches_call(watches, birthheight)->Some_0;
        let fields = call.params->Object_0;
        parameter_names_differ();
        field_at(call, fields, 0);
        field_at(call, fields, 1);
        field_at(call, fields, 2);
        if 0 <= k < watches.len() {
            watch_entry_is_named(watches, k);
        }
    }
}

/// The node is asked to scan for the watches of each owner from a block on, where
/// there are any.
pub proof fn owners_rescan_is_asked(owners: Seq<Seq<char>>, start_block: u32, k: int)
    ensures
        owners_rescan_call(owners, start_block) is Some <==> owners.len() > 0,
        owners_rescan_call(owners, start_block) matches Some(call) ==> {
            let items = call.params.list_field("owners"@)->Some_0;
            &&& call.method == "rescanwatchset"@
            &&& call.params.list_field("owners"@) is Some
            &&& call.params.number_field("start_block"@) == Some(start_block as u64)
            &&& items.len() == owners.len()
            &&& 0 <= k < owners.len() ==> items[k] == JsonModel::Text(owners[k])
        },
{
    if owners.len() > 0 {
        let call = owners_rescan_call(owners, start_block)->Some_0;
        let fields = call.params->Object_0;
        parameter_names_differ();
        field_at(call, fields, 0);
        field_at(call, fields, 1);
    }
}

/// The node is asked to scan for every watch under a prefix from a block on.
pub proof fn prefix_rescan_is_asked(owner_prefix: Seq<char>, start_block: u32)
    ensures
        ({
            let call = prefix_rescan_call(owner_prefix, start_block);
            &&& call.method == "rescanwatchset"@
            &&& call.params.text_field("owner_prefix"@) == Some(owner_prefix)
            &&& call.params.number_field("start_block"@) == Some(start_block as u64)
        }),
{
    let call = prefix_rescan_call(owner_prefix, start_block);
    let fields = call.params->Object_0;
    parameter_names_differ();
    field_at(call, fields, 0);
    field_at(call, fields, 1);
}

/// A watch is removed by the call of its own type, for its owner and for what it
/// watches.
pub proof fn removal_is_of_the_watch(watch: WatchModel)
    ensures
        ({
            let call = removal_of(watch);
            &&& call.params.text_field("owner"@) == Some(watch.owner())
            &&& match watch {
                WatchModel::Script { owner, scriptpubkey } => call.method
                    == "delscriptpubkeywatch"@ && watch.owner() == owner && call.params.text_field(
                    "scriptpubkey"@,
                ) == Some(scriptpubkey),
                WatchModel::Outpoint { owner, outpoint } => call.method == "deloutpointwatch"@
                    && watch.owner() == owner && call.params.text_field("outpoint"@) == Some(
                    outpoint,
                ),
                WatchModel::Blockdepth { owner, start_block } => call.method
                    == "delblockdepthwatch"@ && watch.owner() == owner && call.params.number_field(
                    "start_block"@,
                ) == Some(start_block as u64),
            }
        }),
{
    let call = removal_of(watch);
    let fields = call.params->Object_0;
    parameter_names_differ();
    field_at(call, fields, 0);
    field_at(call, fields, 1);
}

/// Bookkeeper is told of a deposit of the account itself, with its outpoint, its
/// amount, its time and its height.
pub proof fn deposit_is_told(
    account: Seq<char>,
    outpoint: Seq<char>,
    amount_msat: u64,
    timestamp: u64,
    blockheight: u32,
)
    ensures
        ({
            let call = deposit_call(account, outpoint, amount_msat, timestamp, blockheight);
            &&& call.method == "injectutxodeposit"@
            &&& call.params.text_field("account"@) == Some(account)
            &&& call.params.text_field("outpoint"@) == Some(outpoint)
            &&& call.params.text_field("amount_msat"@) == Some(
                decimal_text(amount_msat as nat) + "msat"@,
            )
            &&& call.params.number_field("timestamp"@) == Some(timestamp)
            &&& call.params.number_field("blockheight"@) == Some(blockheight as u64)
        }),
{
    let call = deposit_call(account, outpoint, amount_msat, timestamp, blockheight);
    let fields = call.params->Object_0;
    parameter_names_differ();
    field_at(call, fields, 0);
    field_at(call, fields, 1);
    field_at(call, fields, 2);
    field_at(call, fields, 3);
    field_at(call, fields, 4);
}

/// Bookkeeper is told of a payment to someone else as a deposit of the external
/// account that comes from the account.
pub proof fn external_deposit_is_told(
    transfer_from: Seq<char>,
    outpoint: Seq<char>,
    amount_msat: u64,
    timestamp: u64,
    blockheight: u32,
)
    ensures
        ({
            let call = external_deposit_call(
                transfer_from,
                outpoint,
                amount_msat,
                timestamp,
                blockheight,
            );
            &&& call.method == "injectutxodeposit"@
            &&& call.params.text_field("account"@) == Some("external"@)
            &&& call.params.text_field("transfer_from"@) == Some(transfer_from)
            &&& call.params.text_field("outpoint"@) == Some(outpoint)
            &&& call.params.text_field("amount_msat"@) == Some(
                decimal_text(amount_msat as nat) + "msat"@,
            )
            &&& call.params.number_field("timestamp"@) == Some(timestamp)
            &&& call.params.number_field("blockheight"@) == Some(blockheight as u64)
        }),
{
    let call = external_deposit_call(transfer_from, outpoint, amount_msat, timestamp, blockheight);
    let fields = call.params->Object_0;
    parameter_names_differ();
    field_at(call, fields, 0);
    field_at(call, fields, 1);
    field_at(call, fields, 2);
    field_at(call, fields, 3);
    field_at(call, fields, 4);
    field_at(call, fields, 5);
}

/// Bookkeeper is told of a spend of the account, with the outpoint and the
/// transaction that spends it, its amount, its time and its height.
pub proof fn spend_is_told(
    account: Seq<char>,
    outpoint: Seq<char>,
    spending_txid: Seq<char>,
    amount_msat: u64,
    timestamp: u64,
    blockheight: u32,
)
    ensures
        ({
            let call = spend_call(
                account,
                outpoint,
                spending_txid,
                amount_msat,
                timestamp,
                blockheight,
            );
            &&& call.method == "injectutxospend"@
            &&& call.params.text_field("account"@) == Some(account)
            &&& call.params.text_field("outpoint"@) == Some(outpoint)
            &&& call.params.text_field("spending_txid"@) == Some(spending_txid)
            &&& call.params.text_field("amount_msat"@) == Some(
                decimal_text(amount_msat as nat) + "msat"@,
            )
            &&& call.params.number_field("timestamp"@) == Some(timestamp)
            &&& call.params.number_field("blockheight"@) == Some(blockheight as u64)
        }),
{
    let call = spend_call(account, outpoint, spending_txid, amount_msat, timestamp, blockheight);
    let fields = call.params->Object_0;
    parameter_names_differ();
    field_at(call, fields, 0);
    field_at(call, fields, 1);
    field_at(call, fields, 2);
    field_at(call, fields, 3);
    field_at(call, fields, 4);
    field_at(call, fields, 5);
}

/// Bookkeeper is told of the description of an outpoint.
pub proof fn description_is_told(outpoint: Seq<char>, description: Seq<char>)
    ensures
        ({
            let call = description_call(outpoint, description);
            &&& call.method == "bkpr-editdescriptionbyoutpoint"@
            &&& call.params.text_field("outpoint"@) == Some(outpoint)
            &&& call.params.text_field("description"@) == Some(description)
        }),
{
    let call = description_call(outpoint, description);
    let fields = call.params->Object_0;
    parameter_names_differ();
    field_at(call, fields, 0);
    field_at(call, fields, 1);
}

/// History is scanned for every script of the list, under its owner and from the
/// block that is given.
pub proof fn scan_is_asked(watches: Seq<(Seq<char>, Seq<char>)>, start_block: u32, k: int)
    ensures
        ({
            let call = scan_call(watches, start_block);
            let asked = call.params.list_field("watches"@);
            &&& call.method == "scanwatchset"@
            &&& call.params.number_field("start_block"@) == Some(start_block as u64)
            &&& asked is Some && asked->Some_0.len() == watches.len()
            &&& 0 <= k < watches.len() ==> {
                &&& asked->Some_0[k].text_field("owner"@) == Some(watches[k].0)
                &&& asked->Some_0[k].text_field("scriptpubkey"@) == Some(watches[k].1)
            }
        }),
{
    parameter_names_differ();
    let call = scan_call(watches, start_block);
    let fields = call.params->Object_0;
    field_at(call, fields, 0);
    field_at(call, fields, 1);
    if 0 <= k < watches.len() {
        watch_entry_is_named(watches, k);
    }
}

/// A record is stored and deleted under its name, and an issued address under its
/// name, branch and index, with the text that is given and at the generation that
/// was read.
pub proof fn entries_are_stored_under_their_keys(
    record: RecordModel,
    address: IssuedModel,
    data: Seq<char>,
)
    ensures
        ({
            let call = record_store(record, data);
            let key = call.params.list_field("key"@);
            &&& call.method == "datastore"@
            &&& call.params.text_field("string"@) == Some(data)
            &&& key is Some && is_text_row(
                key->Some_0,
                seq!["tracker"@, "descriptors"@, record.config.name],
            )
            &&& record.generation is Some ==> call.params.number_field("generation"@)
                == record.generation
        }),
        ({
            let call = record_deletion(record);
            let key = call.params.list_field("key"@);
            &&& call.method == "deldatastore"@
            &&& key is Some && is_text_row(
                key->Some_0,
                seq!["tracker"@, "descriptors"@, record.config.name],
            )
            &&& record.generation is Some ==> call.params.number_field("generation"@)
                == record.generation
        }),
        ({
            let call = address_store(address, data);
            let key = call.params.list_field("key"@);
            &&& call.method == "datastore"@
            &&& call.params.text_field("string"@) == Some(data)
            &&& key is Some && is_text_row(
                key->Some_0,
                seq![
                    "tracker"@,
                    "addresses"@,
                    address.name,
                    decimal_text(address.branch as nat),
                    decimal_text(address.index as nat),
                ],
            )
            &&& address.generation is Some ==> call.params.number_field("generation"@)
                == address.generation
        }),
{
    reveal_strlit("key");
    reveal_strlit("string");
    reveal_strlit("mode");
    reveal_strlit("generation");
    assert("key"@.len() == 3);
    assert("string"@.len() == 6);
    assert("mode"@.len() == 4);
    assert("generation"@.len() == 10);
    let stored = record_store(record, data).params->Object_0;
    named_field_at(stored, 0);
    named_field_at(stored, 1);
    let deleted = record_deletion(record).params->Object_0;
    named_field_at(deleted, 0);
    let issued = address_store(address, data).params->Object_0;
    named_field_at(issued, 0);
    named_field_at(issued, 1);
    if record.generation is Some {
        named_field_at(stored, 3);
        named_field_at(deleted, 1);
    }
    if address.generation is Some {
        named_field_at(issued, 3);
    }
}

/// A list of a call is a row of texts.
pub open spec fn is_text_row(list: Seq<JsonModel>, texts: Seq<Seq<char>>) -> bool {
    list.len() == texts.len() && forall|i: int|
        0 <= i < texts.len() ==> #[trigger] list[i] == JsonModel::Text(texts[i])
}

/// Exactly the issued addresses of the descriptor are deleted, each under its own
/// key and at the generation that was read.
pub proof fn addresses_of_the_name_are_deleted(
    addresses: Seq<IssuedModel>,
    count: nat,
    name: Seq<char>,
    i: int,
)
    requires
        count <= addresses.len(),
    ensures
        0 <= i < count && addresses[i].name == name ==> exists|j: int|
            0 <= j < address_deletions(addresses, count, name).len() && is_deletion_of(
                #[trigger] address_deletions(addresses, count, name)[j],
                addresses[i],
            ),
        0 <= i < address_deletions(addresses, count, name).len() ==> exists|j: int|
            0 <= j < count && (#[trigger] addresses[j]).name == name && is_deletion_of(
                address_deletions(addresses, count, name)[i],
                addresses[j],
            ),
        address_deletions(addresses, count, name).len() <= count,
    decreases count,
{
    if count > 0 {
        let less = (count - 1) as nat;
        let rest = address_deletions(addresses, less, name);
        let all = address_deletions(addresses, count, name);
        let last = addresses[less as int];
        addresses_of_the_name_are_deleted(addresses, less, name, i);
        if last.name == name {
            reveal_strlit("key");
            reveal_strlit("generation");
            assert("key"@.len() == 3);
            assert("generation"@.len() == 10);
            let fields = all[rest.len() as int].params->Object_0;
            named_field_at(fields, 0);
            if last.generation is Some {
                named_field_at(fields, 1);
            }
            assert(is_deletion_of(all[rest.len() as int], last));
        }
        if 0 <= i < less && addresses[i].name == name {
            let j = choose|j: int|
                0 <= j < rest.len() && is_deletion_of(#[trigger] rest[j], addresses[i]);
            assert(all[j] == rest[j]);
        }
        if 0 <= i < rest.len() {
            assert(all[i] == rest[i]);
        }
    }
}

/// A call deletes an issued address.
pub open spec fn is_deletion_of(call: CallModel, address: IssuedModel) -> bool {
    let key = call.params.list_field("key"@);
    &&& call.method == "deldatastore"@
    &&& key is Some && is_text_row(
        key->Some_0,
        seq![
            "tracker"@,
            "addresses"@,
            address.name,
            decimal_text(address.branch as nat),
            decimal_text(address.index as nat),
        ],
    )
    &&& address.generation is Some ==> call.params.number_field("generation"@)
        == address.generation
}

/// What was stored is read back from where it was stored: its entry is taken, it is
/// accepted as it was, and it keeps the generation of its entry.
pub proof fn stored_entry_is_accepted(
    record: RecordModel,
    address: IssuedModel,
    generation: Option<u64>,
)
    ensures
        is_record_key(seq!["tracker"@, "descriptors"@, record.config.name]),
        ({
            let accepted = accepted_record(record.config.name, record, generation);
            &&& accepted is Ok
            &&& accepted->Ok_0.generation == generation
            &&& accepted->Ok_0 == (RecordModel { generation, ..record })
        }),
        ({
            let key = seq![
                "tracker"@,
                "addresses"@,
                address.name,
                decimal_text(address.branch as nat),
                decimal_text(address.index as nat),
            ];
            let accepted = accepted_address(key, address, generation);
            &&& is_address_key(key)
            &&& accepted is Ok
            &&& accepted->Ok_0.generation == generation
            &&& accepted->Ok_0 == (IssuedModel { generation, ..address })
        }),
{
    assert(record_key(record.config.name) =~= seq![
        "tracker"@,
        "descriptors"@,
        record.config.name,
    ]);
}

/// A record under the key of another descriptor, and an address under the key of
/// another place, are refused.
pub proof fn misplaced_entry_is_refused(
    key: Seq<char>,
    record: RecordModel,
    place: Seq<Seq<char>>,
    address: IssuedModel,
    generation: Option<u64>,
)
    requires
        place.len() == 5,
    ensures
        key != record.config.name ==> accepted_record(key, record, generation) is Err,
        place[2] != address.name || place[3] != decimal_text(address.branch as nat) || place[4]
            != decimal_text(address.index as nat) ==> accepted_address(place, address, generation)
            is Err,
{
}

/// The time of a block is that of the header of the block in the reply.
pub proof fn block_time_is_of_the_block(reply: JsonModel, height: u32, raw: Seq<char>)
    ensures
        raw_block_call(height).method == "getrawblockbyheight"@,
        raw_block_call(height).params.number_field("height"@) == Some(height as u64),
        reply.text_field("block"@) is None ==> block_time(reply, height) is Err,
        reply.text_field("block"@) == Some(raw) ==> {
            &&& decoded_block_time(raw) matches Ok(time) ==> block_time(reply, height) == Ok::<
                u64,
                ReasonModel,
            >(time as u64)
            &&& decoded_block_time(raw) is Err ==> block_time(reply, height) is Err
        },
{
    named_field_at(raw_block_call(height).params->Object_0, 0);
}

/// A listed watch is read as what it says it is.
pub proof fn listed_watch_is_as_it_says(entry: JsonModel, owner: Seq<char>)
    ensures
        entry.text_field("type"@) == Some("scriptpubkey"@) ==> (
        match entry.text_field("scriptpubkey"@) {
            Some(scriptpubkey) => listed_watch(entry, owner) == Ok::<
                Option<WatchModel>,
                TrackerError,
            >(Some(WatchModel::Script { owner, scriptpubkey })),
            None => listed_watch(entry, owner) is Err,
        }),
        entry.text_field("type"@) == Some("outpoint"@) ==> (match entry.text_field("outpoint"@) {
            Some(outpoint) => listed_watch(entry, owner) == Ok::<Option<WatchModel>, TrackerError>(
                Some(WatchModel::Outpoint { owner, outpoint }),
            ),
            None => listed_watch(entry, owner) is Err,
        }),
        entry.text_field("type"@) == Some("blockdepth"@) ==> (
        match entry.number_field("start_block"@) {
            Some(height) => height <= u32::MAX ==> listed_watch(entry, owner) == Ok::<
                Option<WatchModel>,
                TrackerError,
            >(Some(WatchModel::Blockdepth { owner, start_block: height as u32 })),
            None => listed_watch(entry, owner) is Err,
        }),
        entry.text_field("type"@) != Some("scriptpubkey"@) && entry.text_field("type"@) != Some(
            "outpoint"@,
        ) && entry.text_field("type"@) != Some("blockdepth"@) ==> listed_watch(entry, owner)
            == Ok::<Option<WatchModel>, TrackerError>(None),
{
    reveal_strlit("scriptpubkey");
    reveal_strlit("outpoint");
    reveal_strlit("blockdepth");
    assert("scriptpubkey"@.len() == 12 && "outpoint"@.len() == 8 && "blockdepth"@.len() == 10);
}

/// Every owner of an entry that has the prefix gets its watch.
proof fn owners_of_an_entry_get_their_watches(
    entry: JsonModel,
    owners: Seq<JsonModel>,
    count: nat,
    prefix: Seq<char>,
    i: int,
    watch: WatchModel,
)
    requires
        count <= owners.len(),
        entry_watches(entry, owners, count, prefix) is Ok,
        0 <= i < count,
        owners[i] is Text,
        begins_with(owners[i]->Text_0, prefix),
        listed_watch(entry, owners[i]->Text_0) == Ok::<Option<WatchModel>, TrackerError>(
            Some(watch),
        ),
    ensures
        entry_watches(entry, owners, count, prefix)->Ok_0.contains(watch),
    decreases count,
{
    let rest = entry_watches(entry, owners, (count - 1) as nat, prefix)->Ok_0;
    let all = entry_watches(entry, owners, count, prefix)->Ok_0;
    if i == count - 1 {
        assert(all[rest.len() as int] == watch);
    } else {
        owners_of_an_entry_get_their_watches(entry, owners, (count - 1) as nat, prefix, i, watch);
        let j = choose|j: int| 0 <= j < rest.len() && rest[j] == watch;
        assert(all[j] == watch);
    }
}

/// Every watch that an owner with the prefix has is read, for all owners of all
/// entries.
pub proof fn every_owned_watch_is_read(
    entries: Seq<JsonModel>,
    count: nat,
    prefix: Seq<char>,
    k: int,
    i: int,
    watch: WatchModel,
)
    requires
        count <= entries.len(),
        listed_watches(entries, count, prefix) is Ok,
        0 <= k < count,
        entries[k].list_field("owners"@) is Some,
        0 <= i < entries[k].list_field("owners"@)->Some_0.len(),
        entries[k].list_field("owners"@)->Some_0[i] is Text,
        begins_with(entries[k].list_field("owners"@)->Some_0[i]->Text_0, prefix),
        listed_watch(entries[k], entries[k].list_field("owners"@)->Some_0[i]->Text_0) == Ok::<
            Option<WatchModel>,
            TrackerError,
        >(Some(watch)),
    ensures
        listed_watches(entries, count, prefix)->Ok_0.contains(watch),
    decreases count,
{
    let rest = listed_watches(entries, (count - 1) as nat, prefix)->Ok_0;
    let all = listed_watches(entries, count, prefix)->Ok_0;
    if k == count - 1 {
        let owners = entries[k].list_field("owners"@)->Some_0;
        owners_of_an_entry_get_their_watches(entries[k], owners, owners.len(), prefix, i, watch);
        let more = entry_watches(entries[k], owners, owners.len(), prefix)->Ok_0;
        let j = choose|j: int| 0 <= j < more.len() && more[j] == watch;
        assert(all[rest.len() + j] == watch);
    } else {
        every_owned_watch_is_read(entries, (count - 1) as nat, prefix, k, i, watch);
        let j = choose|j: int| 0 <= j < rest.len() && rest[j] == watch;
        assert(all[j] == watch);
    }
}

/// The listings that tracker asks for are those of its own entries, and of the
/// account by its name.
pub proof fn listings_are_asked(account: Seq<char>)
    ensures
        children_call(seq!["tracker"@, "descriptors"@]) == records_call(),
        children_call(seq!["tracker"@, "addresses"@]) == addresses_call(),
        forall|key: Seq<Seq<char>>| #[trigger]
            children_call(key).method == "listdatastore"@ && children_call(key).params.list_field(
                "key"@,
            ) is Some && is_text_row(
                children_call(key).params.list_field("key"@)->Some_0,
                key,
            ),
        account_events_call(account).method == "bkpr-listaccountevents"@,
        account_events_call(account).params.text_field("account"@) == Some(account),
{
    assert forall|key: Seq<Seq<char>>| #[trigger]
        children_call(key).method == "listdatastore"@ && children_call(key).params.list_field(
            "key"@,
        ) is Some && is_text_row(
            children_call(key).params.list_field("key"@)->Some_0,
            key,
        ) by {
        named_field_at(children_call(key).params->Object_0, 0);
    }
    named_field_at(account_events_call(account).params->Object_0, 0);
}

} // verus!
