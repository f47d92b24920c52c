//! What can be refused, and why.

use crate::text::{decimal, decimal_text};
use vstd::prelude::*;
use vstd::string::*;

verus! {

/// Why something is refused.
#[derive(Clone, Copy, Debug, PartialEq, Eq, Structural)]
pub enum TrackerError {
    NameEmpty,
    NameTooLong,
    NameCharacters,
    LookaheadZero,
    LookaheadTooLarge,
    ConfirmationsZero,
    ConfirmationsTooLarge,
    ChecksumMissing,
    ChecksumInvalid,
    DescriptorInvalid,
    DescriptorInsane,
    MixedNetworks,
    MainnetKey,
    TestnetKey,
    MultipathInvalid,
    NoBranches,
    ScanRange,
    RescanRange,
    StoredInvalid,
    InvalidRange { start: u32, end: u32 },
    StaticRange,
    StaticIndex,
    NoSuchBranch { branch: u32 },
    Underivable { branch: u32, index: u32 },
    TooManyBranches,
    StaticLookahead,
    NoAddress { branch: u32, index: u32 },
    RangeOverflow,
    RangeTooLarge,
    Overlap,
    WatchesMissing,
    WatchOwnersMissing,
    WatchScriptMissing,
    WatchOutpointMissing,
    WatchStartMissing,
    EventsMissing,
    TransactionInvalid,
    BlockMissing { height: u32 },
    BlockInvalid { height: u32 },
    EntryNotText,
    RecordMisnamed,
    AddressMisplaced,
    ScanAlreadyActive,
    ScanActive,
    TooManyParameters,
    NotRegistered,
    AlreadyRegistered,
    BeingDeleted,
    InitialScanInterrupted,
    RescanInterrupted,
    RescanFirst,
    StartBeforeBirth { birthheight: u32 },
    RescanMismatch { start_block: u32, lookahead: u32 },
    UpdateMismatch { lookahead: u32, confirmations: u32 },
    OtherInterrupted,
    ScanIncomplete,
    RegistrationChanged,
    RescanChanged,
    RescanIdentityChanged,
    UpdateEmpty,
    AnnotationEmpty,
    AnnotationTooLong,
    NotReady,
    StaticIssue,
    IndexTooLarge,
    LimitOutOfRange,
    IncidentOperational,
    AddressBranch { branch: u32 },
    AddressMismatch,
    CursorOverflow,
    DuplicateStored,
    MovementMissing,
    SpendWithoutTransaction,
    RepairWithoutDescription,
    OutpointMissing,
    NotScriptMatch,
    ScriptTransactionMissing,
    ScriptIndexMissing,
    OutputOutside,
    AmountTooLarge,
    UnknownDescriptor,
    IndexUnwatched,
    ScriptMismatch,
    AmountChanged,
    NotOutpointMatch,
    OutpointTransactionMissing,
    InputIndexMissing,
    InputOutside,
    InputMismatch,
    UnknownOutpoint,
    DifferentSpend,
    HistoricalTransactionMissing,
    HistoricalIndexMissing,
    HistoricalInputOutside,
    BookedReorg { height: u32 },
    BlockUnprocessed { height: u32 },
    BlockUnreverted { height: u32 },
}

/// Why something is refused, and what was behind it: the text of the error of
/// what was called, empty where there was none.
#[derive(Clone, Debug, PartialEq, Eq)]
pub struct Reason {
    pub error: TrackerError,
    pub cause: String,
}

/// What a [`Reason`] stands for.
#[verifier::ext_equal]
pub struct ReasonModel {
    pub error: TrackerError,
    pub cause: Seq<char>,
}

impl View for Reason {
    type V = ReasonModel;

    open spec fn view(&self) -> ReasonModel {
        ReasonModel { error: self.error, cause: self.cause@ }
    }
}

/// A reason with nothing behind it.
pub open spec fn plain(error: TrackerError) -> ReasonModel {
    ReasonModel { error, cause: Seq::empty() }
}

/// A reason with something behind it.
pub open spec fn caused(error: TrackerError, cause: Seq<char>) -> ReasonModel {
    ReasonModel { error, cause }
}

/// A refusal, the text that its message names, mostly a descriptor, and what
/// was behind it, empty where there was nothing.
#[derive(Clone, Debug, PartialEq, Eq)]
pub struct Refusal {
    pub error: TrackerError,
    pub subject: String,
    pub cause: String,
}

/// What a [`Refusal`] stands for.
#[verifier::ext_equal]
pub struct RefusalModel {
    pub error: TrackerError,
    pub subject: Seq<char>,
    pub cause: Seq<char>,
}

impl View for Refusal {
    type V = RefusalModel;

    open spec fn view(&self) -> RefusalModel {
        RefusalModel { error: self.error, subject: self.subject@, cause: self.cause@ }
    }
}

/// The refusal for an error that names a subject.
pub open spec fn refusal_of(error: TrackerError, subject: Seq<char>) -> RefusalModel {
    RefusalModel { error, subject, cause: Seq::empty() }
}

/// The refusal for a reason that names a subject.
pub open spec fn refusal_for(reason: ReasonModel, subject: Seq<char>) -> RefusalModel {
    RefusalModel { error: reason.error, subject, cause: reason.cause }
}

/// The refusal of a whole because of the refusal of a part of it.
pub open spec fn refusal_within(
    error: TrackerError,
    subject: Seq<char>,
    part: RefusalModel,
) -> RefusalModel {
    RefusalModel { error, subject, cause: refusal_text(part) }
}

/// The message of a refusal: its headline, and what was behind it.
pub open spec fn refusal_text(refusal: RefusalModel) -> Seq<char> {
    if refusal.cause.len() == 0 {
        headline_text(refusal)
    } else {
        headline_text(refusal) + ": "@ + refusal.cause
    }
}

/// What a refusal says, without what was behind it.
pub open spec fn headline_text(refusal: RefusalModel) -> Seq<char> {
    let subject = refusal.subject;
    match refusal.error {
        TrackerError::NameEmpty => "descriptor name must not be empty"@,
        TrackerError::NameTooLong => "descriptor name must be at most 64 bytes"@,
        TrackerError::NameCharacters => "descriptor name may only contain ASCII letters, digits, '.', '_' and '-'"@,
        TrackerError::LookaheadZero => "lookahead must be greater than zero"@,
        TrackerError::LookaheadTooLarge => "lookahead exceeds maximum of 100000"@,
        TrackerError::ConfirmationsZero => "confirmations must be greater than zero"@,
        TrackerError::ConfirmationsTooLarge => "confirmations exceeds maximum of 2016"@,
        TrackerError::ChecksumMissing => "descriptor checksum is required"@,
        TrackerError::ChecksumInvalid => "descriptor checksum verification failed"@,
        TrackerError::DescriptorInvalid => "invalid output descriptor"@,
        TrackerError::DescriptorInsane => "descriptor failed miniscript sanity checks"@,
        TrackerError::MixedNetworks => "descriptor contains mixed mainnet and testnet extended keys"@,
        TrackerError::MainnetKey => "mainnet extended key cannot be used on CLN network '"@ + subject + "'"@,
        TrackerError::TestnetKey => "testnet extended key cannot be used on CLN network '"@ + subject + "'"@,
        TrackerError::MultipathInvalid => "invalid multipath descriptor"@,
        TrackerError::NoBranches => "descriptor has no derivation branches"@,
        TrackerError::ScanRange => "deriving transient historical scan range"@,
        TrackerError::RescanRange => "deriving descriptor rescan range"@,
        TrackerError::StoredInvalid => "validating stored descriptor '"@ + subject + "'"@,
        TrackerError::InvalidRange { start, end } => "invalid derivation range "@ + decimal_text(start as nat) + ".."@ + decimal_text(end as nat),
        TrackerError::StaticRange => "non-ranged descriptors have one script"@,
        TrackerError::StaticIndex => "non-ranged descriptors only have index zero"@,
        TrackerError::NoSuchBranch { branch } => "descriptor branch "@ + decimal_text(branch as nat) + " does not exist"@,
        TrackerError::Underivable { branch, index } => "unable to derive branch "@ + decimal_text(branch as nat) + " index "@ + decimal_text(index as nat),
        TrackerError::TooManyBranches => "too many descriptor branches"@,
        TrackerError::StaticLookahead => "non-ranged descriptors require lookahead=1"@,
        TrackerError::NoAddress { branch, index } => "branch "@ + decimal_text(branch as nat) + " index "@ + decimal_text(index as nat) + " has no address"@,
        TrackerError::RangeOverflow => "descriptor derivation range overflow"@,
        TrackerError::RangeTooLarge => "descriptor derivation range exceeds unhardened indexes"@,
        TrackerError::Overlap => "descriptor script overlaps registered descriptor '"@ + subject + "'"@,
        TrackerError::WatchesMissing => "listwatch response omitted watches"@,
        TrackerError::WatchOwnersMissing => "listwatch entry omitted owners"@,
        TrackerError::WatchScriptMissing => "scriptpubkey watch omitted scriptpubkey"@,
        TrackerError::WatchOutpointMissing => "outpoint watch omitted outpoint"@,
        TrackerError::WatchStartMissing => "blockdepth watch omitted valid start_block"@,
        TrackerError::EventsMissing => "bkpr-listaccountevents response omitted events"@,
        TrackerError::TransactionInvalid => "decoding raw transaction from bwatch"@,
        TrackerError::BlockMissing { height } => "getrawblockbyheight returned no block for height "@ + decimal_text(height as nat),
        TrackerError::BlockInvalid { height } => "decoding block at height "@ + decimal_text(height as nat),
        TrackerError::EntryNotText => "tracker "@ + subject + " is not UTF-8"@,
        TrackerError::RecordMisnamed => "tracker datastore key '"@ + subject + "'"@,
        TrackerError::AddressMisplaced => "tracker address datastore key does not match its value"@,
        TrackerError::ScanAlreadyActive => "descriptor '"@ + subject + "' already has an active scan"@,
        TrackerError::ScanActive => "descriptor '"@ + subject + "' has an active scan"@,
        TrackerError::TooManyParameters => "too many positional RPC parameters"@,
        TrackerError::NotRegistered => "descriptor '"@ + subject + "' is not registered"@,
        TrackerError::AlreadyRegistered => "descriptor '"@ + subject + "' is already registered"@,
        TrackerError::BeingDeleted => "descriptor '"@ + subject + "' is being deleted"@,
        TrackerError::InitialScanInterrupted => "descriptor '"@ + subject + "' has an interrupted initial scan; retry tracker-register with the same configuration"@,
        TrackerError::RescanInterrupted => "descriptor '"@ + subject + "' has an interrupted rescan; retry tracker-rescan to resume it"@,
        TrackerError::RescanFirst => "descriptor '"@ + subject + "' has an interrupted rescan; retry tracker-rescan first"@,
        TrackerError::StartBeforeBirth { birthheight } => "start_block cannot be earlier than descriptor birthheight "@ + decimal_text(birthheight as nat),
        TrackerError::RescanMismatch { start_block, lookahead } => "descriptor '"@ + subject + "' has an interrupted rescan; retry start_block="@ + decimal_text(start_block as nat) + " lookahead="@ + decimal_text(lookahead as nat) + " first"@,
        TrackerError::UpdateMismatch { lookahead, confirmations } => "descriptor '"@ + subject + "' has an interrupted update; retry lookahead="@ + decimal_text(lookahead as nat) + " confirmations="@ + decimal_text(confirmations as nat) + " first"@,
        TrackerError::OtherInterrupted => "descriptor '"@ + subject + "' has another interrupted operation; reconcile it before rescanning"@,
        TrackerError::ScanIncomplete => "bwatch returned an incomplete wallet scan"@,
        TrackerError::RegistrationChanged => "descriptor registration scan operation changed while its scan was running"@,
        TrackerError::RescanChanged => "descriptor rescan operation changed while its scan was running"@,
        TrackerError::RescanIdentityChanged => "descriptor rescan identity changed while its scan was running"@,
        TrackerError::UpdateEmpty => "lookahead or confirmations is required"@,
        TrackerError::AnnotationEmpty => "annotation cannot be empty"@,
        TrackerError::AnnotationTooLong => "annotation exceeds 1024 UTF-8 bytes"@,
        TrackerError::NotReady => "descriptor '"@ + subject + "' is not ready to issue addresses"@,
        TrackerError::StaticIssue => "non-ranged descriptors cannot issue new addresses"@,
        TrackerError::IndexTooLarge => "address index exceeds unhardened indexes"@,
        TrackerError::LimitOutOfRange => "limit must be between 1 and 1000"@,
        TrackerError::IncidentOperational => "incident '"@ + subject + "' is operational and clears only after a successful retry"@,
        TrackerError::AddressBranch { branch } => "issued address for '"@ + subject + "' has invalid branch "@ + decimal_text(branch as nat),
        TrackerError::AddressMismatch => "issued address metadata does not match descriptor '"@ + subject + "'"@,
        TrackerError::CursorOverflow => "issued address cursor overflow"@,
        TrackerError::DuplicateStored => "duplicate stored descriptor '"@ + subject + "'"@,
        TrackerError::MovementMissing => "pending movement '"@ + subject + "' disappeared"@,
        TrackerError::SpendWithoutTransaction => "pending spend omitted spending transaction id"@,
        TrackerError::RepairWithoutDescription => "external description repair omitted its description"@,
        TrackerError::OutpointMissing => "missing tracked outpoint "@ + subject,
        TrackerError::NotScriptMatch => "unexpected watch type for script owner"@,
        TrackerError::ScriptTransactionMissing => "script match omitted transaction"@,
        TrackerError::ScriptIndexMissing => "script match omitted output index"@,
        TrackerError::OutputOutside => "bwatch output index is outside transaction"@,
        TrackerError::AmountTooLarge => "output amount does not fit in millisatoshis"@,
        TrackerError::UnknownDescriptor => "unknown descriptor '"@ + subject + "' in bwatch owner"@,
        TrackerError::IndexUnwatched => "bwatch match index is outside watched descriptor range"@,
        TrackerError::ScriptMismatch => "bwatch match script does not match descriptor"@,
        TrackerError::AmountChanged => "persisted descriptor output amount differs from bwatch match"@,
        TrackerError::NotOutpointMatch => "unexpected watch type for outpoint owner"@,
        TrackerError::OutpointTransactionMissing => "outpoint match omitted transaction"@,
        TrackerError::InputIndexMissing => "outpoint match omitted input index"@,
        TrackerError::InputOutside => "bwatch input index is outside transaction"@,
        TrackerError::InputMismatch => "bwatch spend input does not match watched outpoint"@,
        TrackerError::UnknownOutpoint => "unknown tracked outpoint "@ + subject,
        TrackerError::DifferentSpend => "tracked outpoint already has a different spend"@,
        TrackerError::HistoricalTransactionMissing => "historical outpoint match omitted transaction"@,
        TrackerError::HistoricalIndexMissing => "historical outpoint match omitted input index"@,
        TrackerError::HistoricalInputOutside => "historical spend input is outside transaction"@,
        TrackerError::BookedReorg { height } => "Bookkeeper movements require manual reconciliation after reorg at height "@ + decimal_text(height as nat),
        TrackerError::BlockUnprocessed { height } => "failed to process bwatch block "@ + decimal_text(height as nat) + ": "@ + subject,
        TrackerError::BlockUnreverted { height } => "failed to revert bwatch block "@ + decimal_text(height as nat) + ": "@ + subject,
    }
}

impl Reason {
    /// A reason with nothing behind it.
    pub fn of(error: TrackerError) -> (r: Reason)
        ensures
            r@ == plain(error),
    {
        let cause = empty_text();
        Reason { error, cause }
    }

    /// The refusal for this reason that names a subject.
    pub fn about(self, subject: &str) -> (r: Refusal)
        ensures
            r@ == refusal_for(self@, subject@),
    {
        Refusal { error: self.error, subject: subject.to_owned(), cause: self.cause }
    }
}

/// A text without characters.
fn empty_text() -> (r: String)
    ensures
        r@ == Seq::<char>::empty(),
{
    let r = "".to_owned();
    proof {
        reveal_strlit("");
    }
    assert(r@ =~= Seq::<char>::empty());
    r
}

impl Refusal {
    /// The refusal for an error that names a subject.
    pub fn of(error: TrackerError, subject: &str) -> (r: Refusal)
        ensures
            r@ == refusal_of(error, subject@),
    {
        Refusal { error, subject: subject.to_owned(), cause: empty_text() }
    }

    /// The refusal of a whole because of this refusal of a part of it.
    pub fn within(&self, error: TrackerError, subject: &str) -> (r: Refusal)
        ensures
            r@ == refusal_within(error, subject@, self@),
    {
        Refusal { error, subject: subject.to_owned(), cause: self.message() }
    }

    /// The message of this refusal.
    pub fn message(&self) -> (r: String)
        ensures
            r@ == refusal_text(self@),
    {
        let mut r = self.headline();
        if self.cause.as_str().unicode_len() > 0 {
            r.append(": ");
            r.append(self.cause.as_str());
        }
        r
    }

    /// What this refusal says, without what was behind it.
    pub fn headline(&self) -> (r: String)
        ensures
            r@ == headline_text(self@),
    {
        match self.error {
            TrackerError::NameEmpty => "descriptor name must not be empty".to_owned(),
            TrackerError::NameTooLong => "descriptor name must be at most 64 bytes".to_owned(),
            TrackerError::NameCharacters => "descriptor name may only contain ASCII letters, digits, '.', '_' and '-'".to_owned(),
            TrackerError::LookaheadZero => "lookahead must be greater than zero".to_owned(),
            TrackerError::LookaheadTooLarge => "lookahead exceeds maximum of 100000".to_owned(),
            TrackerError::ConfirmationsZero => "confirmations must be greater than zero".to_owned(),
            TrackerError::ConfirmationsTooLarge => "confirmations exceeds maximum of 2016".to_owned(),
            TrackerError::ChecksumMissing => "descriptor checksum is required".to_owned(),
            TrackerError::ChecksumInvalid => "descriptor checksum verification failed".to_owned(),
            TrackerError::DescriptorInvalid => "invalid output descriptor".to_owned(),
            TrackerError::DescriptorInsane => "descriptor failed miniscript sanity checks".to_owned(),
            TrackerError::MixedNetworks => "descriptor contains mixed mainnet and testnet extended keys".to_owned(),
            TrackerError::MainnetKey => {
                let mut r = "mainnet extended key cannot be used on CLN network '".to_owned();
                r.append(self.subject.as_str());
                r.append("'");
                r
            },
            TrackerError::TestnetKey => {
                let mut r = "testnet extended key cannot be used on CLN network '".to_owned();
                r.append(self.subject.as_str());
                r.append("'");
                r
            },
            TrackerError::MultipathInvalid => "invalid multipath descriptor".to_owned(),
            TrackerError::NoBranches => "descriptor has no derivation branches".to_owned(),
            TrackerError::ScanRange => "deriving transient historical scan range".to_owned(),
            TrackerError::RescanRange => "deriving descriptor rescan range".to_owned(),
            TrackerError::StoredInvalid => {
                let mut r = "validating stored descriptor '".to_owned();
                r.append(self.subject.as_str());
                r.append("'");
                r
            },
            TrackerError::InvalidRange { start, end } => {
                let mut r = "invalid derivation range ".to_owned();
                r.append(decimal(start as u64).as_str());
                r.append("..");
                r.append(decimal(end as u64).as_str());
                r
            },
            TrackerError::StaticRange => "non-ranged descriptors have one script".to_owned(),
            TrackerError::StaticIndex => "non-ranged descriptors only have index zero".to_owned(),
            TrackerError::NoSuchBranch { branch } => {
                let mut r = "descriptor branch ".to_owned();
                r.append(decimal(branch as u64).as_str());
                r.append(" does not exist");
                r
            },
            TrackerError::Underivable { branch, index } => {
                let mut r = "unable to derive branch ".to_owned();
                r.append(decimal(branch as u64).as_str());
                r.append(" index ");
                r.append(decimal(index as u64).as_str());
                r
            },
            TrackerError::TooManyBranches => "too many descriptor branches".to_owned(),
            TrackerError::StaticLookahead => "non-ranged descriptors require lookahead=1".to_owned(),
            TrackerError::NoAddress { branch, index } => {
                let mut r = "branch ".to_owned();
                r.append(decimal(branch as u64).as_str());
                r.append(" index ");
                r.append(decimal(index as u64).as_str());
                r.append(" has no address");
                r
            },
            TrackerError::RangeOverflow => "descriptor derivation range overflow".to_owned(),
            TrackerError::RangeTooLarge => "descriptor derivation range exceeds unhardened indexes".to_owned(),
            TrackerError::Overlap => {
                let mut r = "descriptor script overlaps registered descriptor '".to_owned();
                r.append(self.subject.as_str());
                r.append("'");
                r
            },
            TrackerError::WatchesMissing => "listwatch response omitted watches".to_owned(),
            TrackerError::WatchOwnersMissing => "listwatch entry omitted owners".to_owned(),
            TrackerError::WatchScriptMissing => "scriptpubkey watch omitted scriptpubkey".to_owned(),
            TrackerError::WatchOutpointMissing => "outpoint watch omitted outpoint".to_owned(),
            TrackerError::WatchStartMissing => "blockdepth watch omitted valid start_block".to_owned(),
            TrackerError::EventsMissing => "bkpr-listaccountevents response omitted events".to_owned(),
            TrackerError::TransactionInvalid => "decoding raw transaction from bwatch".to_owned(),
            TrackerError::BlockMissing { height } => {
                let mut r = "getrawblockbyheight returned no block for height ".to_owned();
                r.append(decimal(height as u64).as_str());
                r
            },
            TrackerError::BlockInvalid { height } => {
                let mut r = "decoding block at height ".to_owned();
                r.append(decimal(height as u64).as_str());
                r
            },
            TrackerError::EntryNotText => {
                let mut r = "tracker ".to_owned();
                r.append(self.subject.as_str());
                r.append(" is not UTF-8");
                r
            },
            TrackerError::RecordMisnamed => {
                let mut r = "tracker datastore key '".to_owned();
                r.append(self.subject.as_str());
                r.append("'");
                r
            },
            TrackerError::AddressMisplaced => "tracker address datastore key does not match its value".to_owned(),
            TrackerError::ScanAlreadyActive => {
                let mut r = "descriptor '".to_owned();
                r.append(self.subject.as_str());
                r.append("' already has an active scan");
                r
            },
            TrackerError::ScanActive => {
                let mut r = "descriptor '".to_owned();
                r.append(self.subject.as_str());
                r.append("' has an active scan");
                r
            },
            TrackerError::TooManyParameters => "too many positional RPC parameters".to_owned(),
            TrackerError::NotRegistered => {
                let mut r = "descriptor '".to_owned();
                r.append(self.subject.as_str());
                r.append("' is not registered");
                r
            },
            TrackerError::AlreadyRegistered => {
                let mut r = "descriptor '".to_owned();
                r.append(self.subject.as_str());
                r.append("' is already registered");
                r
            },
            TrackerError::BeingDeleted => {
                let mut r = "descriptor '".to_owned();
                r.append(self.subject.as_str());
                r.append("' is being deleted");
                r
            },
            TrackerError::InitialScanInterrupted => {
                let mut r = "descriptor '".to_owned();
                r.append(self.subject.as_str());
                r.append("' has an interrupted initial scan; retry tracker-register with the same configuration");
                r
            },
            TrackerError::RescanInterrupted => {
                let mut r = "descriptor '".to_owned();
                r.append(self.subject.as_str());
                r.append("' has an interrupted rescan; retry tracker-rescan to resume it");
                r
            },
            TrackerError::RescanFirst => {
                let mut r = "descriptor '".to_owned();
                r.append(self.subject.as_str());
                r.append("' has an interrupted rescan; retry tracker-rescan first");
                r
            },
            TrackerError::StartBeforeBirth { birthheight } => {
                let mut r = "start_block cannot be earlier than descriptor birthheight ".to_owned();
                r.append(decimal(birthheight as u64).as_str());
                r
            },
            TrackerError::RescanMismatch { start_block, lookahead } => {
                let mut r = "descriptor '".to_owned();
                r.append(self.subject.as_str());
                r.append("' has an interrupted rescan; retry start_block=");
                r.append(decimal(start_block as u64).as_str());
                r.append(" lookahead=");
                r.append(decimal(lookahead as u64).as_str());
                r.append(" first");
                r
            },
            TrackerError::UpdateMismatch { lookahead, confirmations } => {
                let mut r = "descriptor '".to_owned();
                r.append(self.subject.as_str());
                r.append("' has an interrupted update; retry lookahead=");
                r.append(decimal(lookahead as u64).as_str());
                r.append(" confirmations=");
                r.append(decimal(confirmations as u64).as_str());
                r.append(" first");
                r
            },
            TrackerError::OtherInterrupted => {
                let mut r = "descriptor '".to_owned();
                r.append(self.subject.as_str());
                r.append("' has another interrupted operation; reconcile it before rescanning");
                r
            },
            TrackerError::ScanIncomplete => "bwatch returned an incomplete wallet scan".to_owned(),
            TrackerError::RegistrationChanged => "descriptor registration scan operation changed while its scan was running".to_owned(),
            TrackerError::RescanChanged => "descriptor rescan operation changed while its scan was running".to_owned(),
            TrackerError::RescanIdentityChanged => "descriptor rescan identity changed while its scan was running".to_owned(),
            TrackerError::UpdateEmpty => "lookahead or confirmations is required".to_owned(),
            TrackerError::AnnotationEmpty => "annotation cannot be empty".to_owned(),
            TrackerError::AnnotationTooLong => "annotation exceeds 1024 UTF-8 bytes".to_owned(),
            TrackerError::NotReady => {
                let mut r = "descriptor '".to_owned();
                r.append(self.subject.as_str());
                r.append("' is not ready to issue addresses");
                r
            },
            TrackerError::StaticIssue => "non-ranged descriptors cannot issue new addresses".to_owned(),
            TrackerError::IndexTooLarge => "address index exceeds unhardened indexes".to_owned(),
            TrackerError::LimitOutOfRange => "limit must be between 1 and 1000".to_owned(),
            TrackerError::IncidentOperational => {
                let mut r = "incident '".to_owned();
                r.append(self.subject.as_str());
                r.append("' is operational and clears only after a successful retry");
                r
            },
            TrackerError::AddressBranch { branch } => {
                let mut r = "issued address for '".to_owned();
                r.append(self.subject.as_str());
                r.append("' has invalid branch ");
                r.append(decimal(branch as u64).as_str());
                r
            },
            TrackerError::AddressMismatch => {
                let mut r = "issued address metadata does not match descriptor '".to_owned();
                r.append(self.subject.as_str());
                r.append("'");
                r
            },
            TrackerError::CursorOverflow => "issued address cursor overflow".to_owned(),
            TrackerError::DuplicateStored => {
                let mut r = "duplicate stored descriptor '".to_owned();
                r.append(self.subject.as_str());
                r.append("'");
                r
            },
            TrackerError::MovementMissing => {
                let mut r = "pending movement '".to_owned();
                r.append(self.subject.as_str());
                r.append("' disappeared");
                r
            },
            TrackerError::SpendWithoutTransaction => "pending spend omitted spending transaction id".to_owned(),
            TrackerError::RepairWithoutDescription => "external description repair omitted its description".to_owned(),
            TrackerError::OutpointMissing => {
                let mut r = "missing tracked outpoint ".to_owned();
                r.append(self.subject.as_str());
                r
            },
            TrackerError::NotScriptMatch => "unexpected watch type for script owner".to_owned(),
            TrackerError::ScriptTransactionMissing => "script match omitted transaction".to_owned(),
            TrackerError::ScriptIndexMissing => "script match omitted output index".to_owned(),
            TrackerError::OutputOutside => "bwatch output index is outside transaction".to_owned(),
            TrackerError::AmountTooLarge => "output amount does not fit in millisatoshis".to_owned(),
            TrackerError::UnknownDescriptor => {
                let mut r = "unknown descriptor '".to_owned();
                r.append(self.subject.as_str());
                r.append("' in bwatch owner");
                r
            },
            TrackerError::IndexUnwatched => "bwatch match index is outside watched descriptor range".to_owned(),
            TrackerError::ScriptMismatch => "bwatch match script does not match descriptor".to_owned(),
            TrackerError::AmountChanged => "persisted descriptor output amount differs from bwatch match".to_owned(),
            TrackerError::NotOutpointMatch => "unexpected watch type for outpoint owner".to_owned(),
            TrackerError::OutpointTransactionMissing => "outpoint match omitted transaction".to_owned(),
            TrackerError::InputIndexMissing => "outpoint match omitted input index".to_owned(),
            TrackerError::InputOutside => "bwatch input index is outside transaction".to_owned(),
            TrackerError::InputMismatch => "bwatch spend input does not match watched outpoint".to_owned(),
            TrackerError::UnknownOutpoint => {
                let mut r = "unknown tracked outpoint ".to_owned();
                r.append(self.subject.as_str());
                r
            },
            TrackerError::DifferentSpend => "tracked outpoint already has a different spend".to_owned(),
            TrackerError::HistoricalTransactionMissing => "historical outpoint match omitted transaction".to_owned(),
            TrackerError::HistoricalIndexMissing => "historical outpoint match omitted input index".to_owned(),
            TrackerError::HistoricalInputOutside => "historical spend input is outside transaction".to_owned(),
            TrackerError::BookedReorg { height } => {
                let mut r = "Bookkeeper movements require manual reconciliation after reorg at height ".to_owned();
                r.append(decimal(height as u64).as_str());
                r
            },
            TrackerError::BlockUnprocessed { height } => {
                let mut r = "failed to process bwatch block ".to_owned();
                r.append(decimal(height as u64).as_str());
                r.append(": ");
                r.append(self.subject.as_str());
                r
            },
            TrackerError::BlockUnreverted { height } => {
                let mut r = "failed to revert bwatch block ".to_owned();
                r.append(decimal(height as u64).as_str());
                r.append(": ");
                r.append(self.subject.as_str());
                r
            },
        }
    }
}

/// Something is refused with an error about a subject.
pub open spec fn refuses<T>(
    r: Result<T, RefusalModel>,
    error: TrackerError,
    subject: Seq<char>,
) -> bool {
    r matches Err(refusal) && refusal.error == error && refusal.subject == subject
}

/// The message of a refusal is its headline, followed by what was behind it where
/// something was. A part that is refused stands behind the refusal of the whole.
pub proof fn message_tells_what_was_behind(
    refusal: RefusalModel,
    error: TrackerError,
    subject: Seq<char>,
)
    ensures
        refusal.cause.len() == 0 ==> refusal_text(refusal) == headline_text(refusal),
        refusal.cause.len() > 0 ==> refusal_text(refusal) == headline_text(refusal) + ": "@
            + refusal.cause,
        refusal_within(error, subject, refusal).cause == refusal_text(refusal),
        refusal_within(error, subject, refusal).error == error,
        refusal_within(error, subject, refusal).subject == subject,
{
}

} // verus!
