//! Output descriptors: what is accepted, and the scripts that they derive.

use crate::error::{caused, plain, Reason, ReasonModel, TrackerError};
use crate::json::opt_text;
use crate::ordered::models;
use crate::text::{chars_of, same_text};
use miniscript::bitcoin::secp256k1::Secp256k1;
use miniscript::bitcoin::{Network, NetworkKind};
use miniscript::descriptor::{checksum, Descriptor, DescriptorPublicKey, XKeyNetwork};
use std::str::FromStr;
use vstd::prelude::*;
use vstd::string::*;

verus! {

/// The networks of the extended keys of a descriptor.
#[derive(Clone, Copy, Debug, PartialEq, Eq, Structural)]
pub enum KeyNetworks {
    /// There is no extended key.
    NoKeys,
    /// Keys of the main network and of a test network.
    Mixed,
    /// Keys of the main network.
    Main,
    /// Keys of test networks.
    Test,
}

/// The text that `checksum::verify_checksum` gives back for a descriptor, or
/// what it says of one that it rejects.
pub uninterp spec fn checksum_body(text: Seq<char>) -> Result<Seq<char>, Seq<char>>;

/// What is wrong with a text that is no output descriptor.
pub uninterp spec fn descriptor_fault(text: Seq<char>) -> Option<Seq<char>>;

/// What is wrong with a descriptor that does not pass the sanity check.
pub uninterp spec fn sanity_fault(text: Seq<char>) -> Option<Seq<char>>;

/// The networks of the extended keys of the descriptor.
pub uninterp spec fn key_networks_of(text: Seq<char>) -> KeyNetworks;

/// Whether the descriptor has a wildcard.
pub uninterp spec fn has_wildcard(text: Seq<char>) -> bool;

/// The number of the paths of a descriptor, or why they do not agree.
pub uninterp spec fn paths_of(text: Seq<char>) -> Result<usize, Seq<char>>;

/// The script of a path of a descriptor at an index, or why there is none.
pub uninterp spec fn script_at(
    text: Seq<char>,
    branch: u32,
    index: u32,
) -> Result<Seq<u8>, Seq<char>>;

/// The address of a path of a descriptor at an index on a network, or why there
/// is none.
pub uninterp spec fn address_at(
    text: Seq<char>,
    branch: u32,
    index: u32,
    network: Seq<char>,
) -> Result<Seq<char>, Seq<char>>;

/// Calls `miniscript::descriptor::checksum::verify_checksum`, which rejects a
/// text that is not printable ASCII, or whose last `#` is not followed by the
/// eight characters of the checksum of what stands before it. It gives back
/// what stands before the last `#`, or the whole text where there is none. Its
/// error is given as the text that `anyhow` shows of it and of its sources.
/// What the checksum of a text is goes unsaid here.
#[verifier::external_body]
fn verify_checksum(text: &str) -> (r: Result<&str, String>)
    ensures
        (match r {
            Ok(body) => checksum_body(text@) == Ok::<Seq<char>, Seq<char>>(body@),
            Err(cause) => checksum_body(text@) == Err::<Seq<char>, Seq<char>>(cause@),
        }),
        r matches Ok(body) ==> body@.len() <= text@.len() && body@ == text@.take(
            body@.len() as int,
        ),
        r matches Ok(body) ==> body@.len() < text@.len() ==> text@[body@.len() as int] == '#'
            && text@.len() == body@.len() + 9,
        r matches Ok(body) ==> body@.len() == text@.len() ==> !text@.contains('#'),
{
    checksum::verify_checksum(text).map_err(|e| format!("{:#}", anyhow::Error::new(e)))
}

/// Calls `Descriptor::<DescriptorPublicKey>::from_str` and gives the text of
/// its error and of the sources of it where it does not accept the text.
#[verifier::external_body]
fn read_descriptor_fault(text: &str) -> (r: Option<String>)
    ensures
        opt_text(r) == descriptor_fault(text@),
{
    Descriptor::<DescriptorPublicKey>::from_str(text).err()
        .map(|e| format!("{:#}", anyhow::Error::new(e)))
}

/// Calls `Descriptor::sanity_check` on the descriptor of a text and gives the
/// text of its error and of the sources of it where it does not pass. A text
/// that is no descriptor does not pass, with the error of reading it.
#[verifier::external_body]
fn read_sanity_fault(text: &str) -> (r: Option<String>)
    ensures
        opt_text(r) == sanity_fault(text@),
{
    Descriptor::<DescriptorPublicKey>::from_str(text)
        .and_then(|parsed| parsed.sanity_check())
        .err()
        .map(|e| format!("{:#}", anyhow::Error::new(e)))
}

/// Calls `Descriptor::xkey_network` on the descriptor of a text. A text that is
/// no descriptor has no keys.
#[verifier::external_body]
fn read_key_networks(text: &str) -> (r: KeyNetworks)
    ensures
        r == key_networks_of(text@),
{
    match Descriptor::<DescriptorPublicKey>::from_str(text) {
        Ok(parsed) => match parsed.xkey_network() {
            XKeyNetwork::NoXKeys => KeyNetworks::NoKeys,
            XKeyNetwork::Mixed => KeyNetworks::Mixed,
            XKeyNetwork::Single(NetworkKind::Main) => KeyNetworks::Main,
            XKeyNetwork::Single(NetworkKind::Test) => KeyNetworks::Test,
        },
        Err(_) => KeyNetworks::NoKeys,
    }
}

/// Calls `Descriptor::has_wildcard` on the descriptor of a text. A text that is
/// no descriptor has none.
#[verifier::external_body]
fn reads_wildcard(text: &str) -> (r: bool)
    ensures
        r == has_wildcard(text@),
{
    match Descriptor::<DescriptorPublicKey>::from_str(text) {
        Ok(parsed) => parsed.has_wildcard(),
        Err(_) => false,
    }
}

/// Calls `Descriptor::into_single_descriptors` on the descriptor of a text and
/// gives the number of descriptors, one for each path. Where the number of
/// paths differs between keys, or the text is no descriptor, it gives the text
/// of the error and of the sources of it.
#[verifier::external_body]
fn read_paths(text: &str) -> (r: Result<usize, String>)
    ensures
        match r {
            Ok(count) => paths_of(text@) == Ok::<usize, Seq<char>>(count),
            Err(cause) => paths_of(text@) == Err::<usize, Seq<char>>(cause@),
        },
{
    Descriptor::<DescriptorPublicKey>::from_str(text)
        .and_then(|parsed| parsed.into_single_descriptors())
        .map(|singles| singles.len())
        .map_err(|e| format!("{:#}", anyhow::Error::new(e)))
}

/// Calls `Descriptor::into_single_descriptors` on the descriptor of a text, and
/// `at_derivation_index`, `derived_descriptor` and `script_pubkey` on that of
/// the path, and gives the bytes of the script. Where the index is hardened, a
/// step of the derivation is, or the text is no descriptor, it gives the text of
/// the error and of the sources of it, and an empty text where the descriptor
/// has no such path.
#[verifier::external_body]
fn derive_script(text: &str, branch: u32, index: u32) -> (r: Result<Vec<u8>, String>)
    ensures
        match r {
            Ok(bytes) => script_at(text@, branch, index) == Ok::<Seq<u8>, Seq<char>>(bytes@),
            Err(cause) => script_at(text@, branch, index) == Err::<Seq<u8>, Seq<char>>(cause@),
        },
{
    let singles = Descriptor::<DescriptorPublicKey>::from_str(text)
        .and_then(|parsed| parsed.into_single_descriptors())
        .map_err(|e| format!("{:#}", anyhow::Error::new(e)))?;
    let definite = singles.get(branch as usize).ok_or_else(String::new)?
        .at_derivation_index(index)
        .map_err(|e| format!("{:#}", anyhow::Error::new(e)))?;
    let concrete = definite.derived_descriptor(&Secp256k1::verification_only());
    Ok(concrete.script_pubkey().to_bytes())
}

/// Calls `Descriptor::address` on the descriptor that `derived_descriptor`
/// gives for a path of the descriptor of a text at an index. Where the index
/// cannot be derived, the network has another name than bitcoin's own, or the
/// descriptor has no form as an address, it gives the text of the error and of
/// the sources of it, and an empty text where the descriptor has no such path.
#[verifier::external_body]
fn derive_address_text(text: &str, branch: u32, index: u32, network: &str) -> (r: Result<
    String,
    String,
>)
    ensures
        match r {
            Ok(address) => address_at(text@, branch, index, network@) == Ok::<
                Seq<char>,
                Seq<char>,
            >(address@),
            Err(cause) => address_at(text@, branch, index, network@) == Err::<
                Seq<char>,
                Seq<char>,
            >(cause@),
        },
{
    let network = Network::from_str(network).map_err(|e| format!("{:#}", anyhow::Error::new(e)))?;
    let singles = Descriptor::<DescriptorPublicKey>::from_str(text)
        .and_then(|parsed| parsed.into_single_descriptors())
        .map_err(|e| format!("{:#}", anyhow::Error::new(e)))?;
    let definite = singles.get(branch as usize).ok_or_else(String::new)?
        .at_derivation_index(index)
        .map_err(|e| format!("{:#}", anyhow::Error::new(e)))?;
    let concrete = definite.derived_descriptor(&Secp256k1::verification_only());
    let address = concrete.address(network).map_err(|e| format!("{:#}", anyhow::Error::new(e)))?;
    Ok(address.to_string())
}

/// The character of a hexadecimal digit.
pub open spec fn hex_digit(d: int) -> char {
    if d < 10 {
        crate::text::digit_char(d)
    } else if d == 10 {
        'a'
    } else if d == 11 {
        'b'
    } else if d == 12 {
        'c'
    } else if d == 13 {
        'd'
    } else if d == 14 {
        'e'
    } else {
        'f'
    }
}

/// Bytes in lower case hexadecimal.
pub open spec fn hex_text(bytes: Seq<u8>) -> Seq<char>
    decreases bytes.len(),
{
    if bytes.len() == 0 {
        Seq::empty()
    } else {
        hex_text(bytes.drop_last()).push(hex_digit(bytes.last() as int / 16)).push(
            hex_digit(bytes.last() as int % 16),
        )
    }
}

/// Calls `hex::encode`, which writes each byte as two lower case hexadecimal
/// digits.
#[verifier::external_body]
pub(crate) fn hex_encode(bytes: &Vec<u8>) -> (r: String)
    ensures
        r@ == hex_text(bytes@),
{
    hex::encode(bytes)
}

/// What reading a descriptor gave.
#[derive(Debug)]
pub struct DescriptorReading {
    /// What stands before the checksum, or what is wrong with the checksum.
    pub body: Result<String, String>,
    /// What is wrong where the text is no descriptor.
    pub invalid: Option<String>,
    /// What is wrong where it does not pass the sanity check.
    pub insane: Option<String>,
    /// The networks of its extended keys.
    pub networks: KeyNetworks,
    /// Whether it has a wildcard.
    pub ranged: bool,
    /// The number of its paths, or why they do not agree.
    pub branches: Result<usize, String>,
}

/// What a [`DescriptorReading`] stands for.
#[verifier::ext_equal]
pub struct ReadingModel {
    pub body: Result<Seq<char>, Seq<char>>,
    pub invalid: Option<Seq<char>>,
    pub insane: Option<Seq<char>>,
    pub networks: KeyNetworks,
    pub ranged: bool,
    pub branches: Result<usize, Seq<char>>,
}

impl View for DescriptorReading {
    type V = ReadingModel;

    open spec fn view(&self) -> ReadingModel {
        ReadingModel {
            body: match self.body {
                Ok(body) => Ok(body@),
                Err(cause) => Err(cause@),
            },
            invalid: opt_text(self.invalid),
            insane: opt_text(self.insane),
            networks: self.networks,
            ranged: self.ranged,
            branches: match self.branches {
                Ok(count) => Ok(count),
                Err(cause) => Err(cause@),
            },
        }
    }
}

/// What reading a descriptor gives.
pub open spec fn reading_of(text: Seq<char>) -> ReadingModel {
    ReadingModel {
        body: checksum_body(text),
        invalid: descriptor_fault(text),
        insane: sanity_fault(text),
        networks: key_networks_of(text),
        ranged: has_wildcard(text),
        branches: paths_of(text),
    }
}

/// A descriptor that was accepted, the number of its paths, and whether it has
/// a wildcard.
#[derive(Debug)]
pub struct DescriptorSet {
    text: String,
    branches: usize,
    ranged: bool,
}

/// What a [`DescriptorSet`] stands for.
#[verifier::ext_equal]
pub struct SetModel {
    pub text: Seq<char>,
    pub branches: nat,
    pub ranged: bool,
}

impl Clone for DescriptorSet {
    fn clone(&self) -> (r: Self)
        ensures
            r@ == self@,
    {
        proof {
            use_type_invariant(self);
        }
        DescriptorSet { text: self.text.clone(), branches: self.branches, ranged: self.ranged }
    }
}

impl View for DescriptorSet {
    type V = SetModel;

    closed spec fn view(&self) -> SetModel {
        SetModel { text: self.text@, branches: self.branches as nat, ranged: self.ranged }
    }
}

/// A script that a descriptor derives.
#[derive(Clone, Debug, PartialEq, Eq)]
pub struct DerivedScript {
    pub branch: u32,
    pub index: u32,
    pub scriptpubkey: String,
}

/// What a [`DerivedScript`] stands for.
#[verifier::ext_equal]
pub struct ScriptModel {
    pub branch: u32,
    pub index: u32,
    pub scriptpubkey: Seq<char>,
}

impl View for DerivedScript {
    type V = ScriptModel;

    open spec fn view(&self) -> ScriptModel {
        ScriptModel { branch: self.branch, index: self.index, scriptpubkey: self.scriptpubkey@ }
    }
}

/// What is wrong with extended keys of these networks on a node's network,
/// where something is.
pub open spec fn network_fault(networks: KeyNetworks, network: Seq<char>) -> Option<TrackerError> {
    match networks {
        KeyNetworks::NoKeys => None,
        KeyNetworks::Mixed => Some(TrackerError::MixedNetworks),
        KeyNetworks::Main => if network == "bitcoin"@ {
            None
        } else {
            Some(TrackerError::MainnetKey)
        },
        KeyNetworks::Test => if network == "bitcoin"@ {
            Some(TrackerError::TestnetKey)
        } else {
            None
        },
    }
}

/// Refuses extended keys of another network than the node's.
pub fn validate_network(networks: KeyNetworks, network: &str) -> (r: Result<(), TrackerError>)
    ensures
        match network_fault(networks, network@) {
            Some(fault) => r == Err::<(), TrackerError>(fault),
            None => r is Ok,
        },
{
    let main = same_text(network, "bitcoin");
    match networks {
        KeyNetworks::NoKeys => Ok(()),
        KeyNetworks::Mixed => Err(TrackerError::MixedNetworks),
        KeyNetworks::Main => if main {
            Ok(())
        } else {
            Err(TrackerError::MainnetKey)
        },
        KeyNetworks::Test => if main {
            Err(TrackerError::TestnetKey)
        } else {
            Ok(())
        },
    }
}

/// What is made of a descriptor on a network, given what reading it gave.
pub open spec fn accepted_set(
    text: Seq<char>,
    network: Seq<char>,
    reading: ReadingModel,
) -> Result<SetModel, ReasonModel> {
    if !text.contains('#') {
        Err(plain(TrackerError::ChecksumMissing))
    } else if reading.body is Err {
        Err(caused(TrackerError::ChecksumInvalid, reading.body->Err_0))
    } else if reading.body->Ok_0.len() + 9 != text.len() {
        Err(plain(TrackerError::ChecksumMissing))
    } else if reading.invalid is Some {
        Err(caused(TrackerError::DescriptorInvalid, reading.invalid->Some_0))
    } else if reading.insane is Some {
        Err(caused(TrackerError::DescriptorInsane, reading.insane->Some_0))
    } else if network_fault(reading.networks, network) is Some {
        Err(plain(network_fault(reading.networks, network)->Some_0))
    } else if reading.branches is Err {
        Err(caused(TrackerError::MultipathInvalid, reading.branches->Err_0))
    } else if reading.branches->Ok_0 == 0 {
        Err(plain(TrackerError::NoBranches))
    } else if reading.branches->Ok_0 > u32::MAX {
        Err(plain(TrackerError::TooManyBranches))
    } else {
        Ok(SetModel { text, branches: reading.branches->Ok_0 as nat, ranged: reading.ranged })
    }
}

/// What is made of a descriptor on a network.
pub open spec fn checked_set(
    text: Seq<char>,
    network: Seq<char>,
) -> Result<SetModel, ReasonModel> {
    accepted_set(text, network, reading_of(text))
}

/// What a result stands for.
pub open spec fn set_result(r: Result<DescriptorSet, Reason>) -> Result<SetModel, ReasonModel> {
    match r {
        Ok(set) => Ok(set@),
        Err(e) => Err(e@),
    }
}

/// Reads a descriptor.
fn read_descriptor(text: &str) -> (r: DescriptorReading)
    ensures
        r@ == reading_of(text@),
{
    let body = match verify_checksum(text) {
        Ok(body) => Ok(body.to_owned()),
        Err(cause) => Err(cause),
    };
    DescriptorReading {
        body,
        invalid: read_descriptor_fault(text),
        insane: read_sanity_fault(text),
        networks: read_key_networks(text),
        ranged: reads_wildcard(text),
        branches: read_paths(text),
    }
}

/// Whether a character occurs in a text.
fn has_char(text: &str, c: char) -> (r: bool)
    ensures
        r == text@.contains(c),
{
    let chars = chars_of(text);
    let mut i: usize = 0;
    while i < chars.len()
        invariant
            i <= chars.len(),
            chars@ == text@,
            forall|j: int| 0 <= j < i ==> #[trigger] text@[j] != c,
        decreases chars.len() - i,
    {
        if chars[i] == c {
            assert(text@[i as int] == c);
            return true;
        }
        i = i + 1;
    }
    false
}

/// Accepts or refuses a descriptor, given what reading it gave.
pub fn accept_descriptor(text: &str, network: &str, reading: DescriptorReading) -> (r: Result<
    DescriptorSet,
    Reason,
>)
    ensures
        set_result(r) == accepted_set(text@, network@, reading@),
{
    if !has_char(text, '#') {
        return Err(Reason::of(TrackerError::ChecksumMissing));
    }
    let length = text.unicode_len();
    match reading.body {
        Err(cause) => {
            return Err(Reason { error: TrackerError::ChecksumInvalid, cause });
        },
        Ok(body) => {
            let body_length = body.as_str().unicode_len();
            if length < 9 || body_length != length - 9 {
                return Err(Reason::of(TrackerError::ChecksumMissing));
            }
        },
    }
    match reading.invalid {
        Some(cause) => {
            return Err(Reason { error: TrackerError::DescriptorInvalid, cause });
        },
        None => {},
    }
    match reading.insane {
        Some(cause) => {
            return Err(Reason { error: TrackerError::DescriptorInsane, cause });
        },
        None => {},
    }
    match validate_network(reading.networks, network) {
        Ok(_) => {},
        Err(e) => {
            return Err(Reason::of(e));
        },
    }
    match reading.branches {
        Err(cause) => Err(Reason { error: TrackerError::MultipathInvalid, cause }),
        Ok(branches) => {
            if branches == 0 {
                Err(Reason::of(TrackerError::NoBranches))
            } else if branches > u32::MAX as usize {
                Err(Reason::of(TrackerError::TooManyBranches))
            } else {
                Ok(DescriptorSet { text: text.to_owned(), branches, ranged: reading.ranged })
            }
        },
    }
}

/// The path of a branch can be derived at an index.
pub open spec fn derivable(set: SetModel, branch: int, index: u32) -> bool {
    script_at(set.text, branch as u32, index) is Ok
}

/// The script of a branch at an index.
pub open spec fn derived(set: SetModel, branch: int, index: u32) -> ScriptModel {
    ScriptModel {
        branch: branch as u32,
        index,
        scriptpubkey: hex_text(script_at(set.text, branch as u32, index)->Ok_0),
    }
}

/// The scripts of a branch at the indexes from `start` up to `end`.
pub open spec fn branch_scripts(set: SetModel, branch: int, start: u32, end: u32) -> Seq<
    ScriptModel,
> {
    Seq::new(
        if start <= end {
            (end - start) as nat
        } else {
            0
        },
        |i: int| derived(set, branch, (start + i) as u32),
    )
}

/// Why a branch cannot be derived at an index.
pub open spec fn underivable(set: SetModel, branch: u32, index: u32) -> ReasonModel {
    caused(
        TrackerError::Underivable { branch, index },
        script_at(set.text, branch, index)->Err_0,
    )
}

/// The first index from `start` up to `end` at which a branch cannot be
/// derived.
pub open spec fn first_gap(set: SetModel, branch: int, start: u32, end: u32) -> Option<u32>
    decreases end - start,
{
    if start >= end {
        None
    } else if !derivable(set, branch, start) {
        Some(start)
    } else {
        first_gap(set, branch, (start + 1) as u32, end)
    }
}

/// The scripts of a branch at the indexes from `start` up to `end`, or the
/// refusal of the first index that cannot be derived.
pub open spec fn branch_result(set: SetModel, branch: int, start: u32, end: u32) -> Result<
    Seq<ScriptModel>,
    ReasonModel,
> {
    match first_gap(set, branch, start, end) {
        Some(index) => Err(underivable(set, branch as u32, index)),
        None => Ok(branch_scripts(set, branch, start, end)),
    }
}

/// The scripts of the first `count` branches at the indexes from `start` up to
/// `end`, branch by branch, or the first refusal.
pub open spec fn branches_result(set: SetModel, count: nat, start: u32, end: u32) -> Result<
    Seq<ScriptModel>,
    ReasonModel,
>
    decreases count,
{
    if count == 0 {
        Ok(Seq::empty())
    } else {
        match branches_result(set, (count - 1) as nat, start, end) {
            Err(e) => Err(e),
            Ok(scripts) => match branch_result(set, count - 1, start, end) {
                Err(e) => Err(e),
                Ok(more) => Ok(scripts + more),
            },
        }
    }
}

/// The scripts of every branch at the indexes from `start` up to `end`.
pub open spec fn range_result(set: SetModel, start: u32, end: u32) -> Result<
    Seq<ScriptModel>,
    ReasonModel,
> {
    if start > end {
        Err(plain(TrackerError::InvalidRange { start, end }))
    } else if !set.ranged && (start != 0 || end > 1) {
        Err(plain(TrackerError::StaticRange))
    } else {
        branches_result(set, set.branches, start, end)
    }
}

/// The scripts of one branch at the indexes from `start` up to `end`.
pub open spec fn branch_range_result(set: SetModel, branch: u32, start: u32, end: u32) -> Result<
    Seq<ScriptModel>,
    ReasonModel,
> {
    if branch >= set.branches {
        Err(plain(TrackerError::NoSuchBranch { branch }))
    } else if start > end {
        Err(plain(TrackerError::InvalidRange { start, end }))
    } else {
        branch_result(set, branch as int, start, script_end(set, end))
    }
}

/// The script of a branch at an index.
pub open spec fn place_result(set: SetModel, branch: u32, index: u32) -> Result<
    ScriptModel,
    ReasonModel,
> {
    match place_fault(set, branch, index) {
        Some(fault) => Err(plain(fault)),
        None => if derivable(set, branch as int, index) {
            Ok(derived(set, branch as int, index))
        } else {
            Err(underivable(set, branch, index))
        },
    }
}

/// The address of a branch at an index.
pub open spec fn address_result(
    set: SetModel,
    branch: u32,
    index: u32,
    network: Seq<char>,
) -> Result<Seq<char>, ReasonModel> {
    match place_fault(set, branch, index) {
        Some(fault) => Err(plain(fault)),
        None => match address_at(set.text, branch, index, network) {
            Ok(address) => Ok(address),
            Err(cause) => Err(caused(TrackerError::NoAddress { branch, index }, cause)),
        },
    }
}

/// What a result of scripts stands for.
pub open spec fn scripts_model(r: Result<Vec<DerivedScript>, Reason>) -> Result<
    Seq<ScriptModel>,
    ReasonModel,
> {
    match r {
        Ok(scripts) => Ok(models(scripts@)),
        Err(e) => Err(e@),
    }
}

/// Where no index before is a gap, the first gap lies further on.
proof fn first_gap_after(set: SetModel, branch: int, start: u32, index: u32, end: u32)
    requires
        start <= index <= end,
        forall|i: u32| start <= i < index ==> #[trigger] derivable(set, branch, i),
    ensures
        first_gap(set, branch, start, end) == first_gap(set, branch, index, end),
    decreases index - start,
{
    if start < index {
        assert(derivable(set, branch, start));
        first_gap_after(set, branch, (start + 1) as u32, index, end);
    }
}

/// The end up to which a branch has scripts: a descriptor without a wildcard
/// has one script.
pub open spec fn script_end(set: SetModel, end: u32) -> u32 {
    if set.ranged || end <= 1 {
        end
    } else {
        1
    }
}

impl DescriptorSet {
    #[verifier::type_invariant]
    spec fn has_branches(self) -> bool {
        0 < self.branches <= u32::MAX
    }

    /// Accepts a descriptor with a valid checksum whose extended keys belong to
    /// the network.
    pub fn parse_checked(descriptor: &str, network: &str) -> (r: Result<Self, Reason>)
        ensures
            set_result(r) == checked_set(descriptor@, network@),
    {
        let reading = read_descriptor(descriptor);
        accept_descriptor(descriptor, network, reading)
    }

    /// Whether the descriptor has a wildcard.
    pub fn is_ranged(&self) -> (r: bool)
        ensures
            r == self@.ranged,
    {
        self.ranged
    }

    /// The number of paths.
    pub fn branch_count(&self) -> (r: usize)
        ensures
            r == self@.branches,
            0 < r <= u32::MAX,
    {
        proof {
            use_type_invariant(self);
        }
        self.branches
    }

    /// The scripts of a branch at the indexes from `start` up to `end`.
    fn scripts_between(&self, branch: u32, start: u32, end: u32) -> (r: Result<
        Vec<DerivedScript>,
        Reason,
    >)
        requires
            branch < self@.branches,
        ensures
            scripts_model(r) == branch_result(self@, branch as int, start, end),
    {
        let mut scripts: Vec<DerivedScript> = Vec::new();
        if start > end {
            assert(branch_scripts(self@, branch as int, start, end) =~= models(scripts@));
            return Ok(scripts);
        }
        let mut index: u32 = start;
        assert(branch_scripts(self@, branch as int, start, start) =~= models(scripts@));
        while index < end
            invariant
                start <= index <= end,
                branch < self@.branches,
                models(scripts@) == branch_scripts(self@, branch as int, start, index),
                forall|i: u32| start <= i < index ==> #[trigger] derivable(self@, branch as int, i),
            decreases end - index,
        {
            match derive_script(self.text.as_str(), branch, index) {
                Err(cause) => {
                    assert(!derivable(self@, branch as int, index));
                    proof {
                        first_gap_after(self@, branch as int, start, index, end);
                    }
                    return Err(
                        Reason { error: TrackerError::Underivable { branch, index }, cause },
                    );
                },
                Ok(bytes) => {
                    let ghost before = scripts@;
                    assert(derivable(self@, branch as int, index));
                    scripts.push(
                        DerivedScript { branch, index, scriptpubkey: hex_encode(&bytes) },
                    );
                    assert(models(scripts@) =~= models(before).push(
                        derived(self@, branch as int, index),
                    ));
                    index = index + 1;
                    assert(models(scripts@) =~= branch_scripts(
                        self@,
                        branch as int,
                        start,
                        index,
                    ));
                },
            }
        }
        proof {
            first_gap_after(self@, branch as int, start, end, end);
        }
        Ok(scripts)
    }

    /// The scripts of every branch at the indexes from `start` up to `end`.
    pub fn derive_range(&self, start: u32, end: u32) -> (r: Result<
        Vec<DerivedScript>,
        Reason,
    >)
        ensures
            scripts_model(r) == range_result(self@, start, end),
    {
        proof {
            use_type_invariant(self);
        }
        if start > end {
            return Err(Reason::of(TrackerError::InvalidRange { start, end }));
        }
        if !self.ranged && (start != 0 || end > 1) {
            return Err(Reason::of(TrackerError::StaticRange));
        }
        let count = self.branches as u32;
        let mut scripts: Vec<DerivedScript> = Vec::new();
        let mut branch: u32 = 0;
        assert(models(scripts@) =~= Seq::<ScriptModel>::empty());
        while branch < count
            invariant
                branch <= count,
                count == self@.branches,
                Ok::<Seq<ScriptModel>, ReasonModel>(models(scripts@)) == branches_result(
                    self@,
                    branch as nat,
                    start,
                    end,
                ),
                range_result(self@, start, end) == branches_result(
                    self@,
                    count as nat,
                    start,
                    end,
                ),
            decreases count - branch,
        {
            match self.scripts_between(branch, start, end) {
                Err(e) => {
                    proof {
                        refusal_stays(self@, (branch + 1) as nat, count as nat, start, end);
                    }
                    return Err(e);
                },
                Ok(more) => {
                    let ghost before = models(scripts@);
                    let mut more = more;
                    let ghost added = more@;
                    scripts.append(&mut more);
                    assert(models(scripts@) =~= before + models(added));
                },
            }
            branch = branch + 1;
        }
        Ok(scripts)
    }

    /// The scripts of one branch at the indexes from `start` up to `end`. A
    /// descriptor without a wildcard has one script, at index zero, whatever
    /// the end.
    pub fn derive_branch_range(&self, branch: u32, start: u32, end: u32) -> (r: Result<
        Vec<DerivedScript>,
        Reason,
    >)
        ensures
            scripts_model(r) == branch_range_result(self@, branch, start, end),
    {
        if branch as usize >= self.branches {
            return Err(Reason::of(TrackerError::NoSuchBranch { branch }));
        }
        if start > end {
            return Err(Reason::of(TrackerError::InvalidRange { start, end }));
        }
        let last: u32 = if self.ranged || end <= 1 {
            end
        } else {
            1
        };
        self.scripts_between(branch, start, last)
    }

    /// The script of a branch at an index.
    pub fn derive_one(&self, branch: u32, index: u32) -> (r: Result<DerivedScript, Reason>)
        ensures
            (match r {
                Ok(script) => Ok(script@),
                Err(e) => Err(e@),
            }) == place_result(self@, branch, index),
    {
        if branch as usize >= self.branches {
            return Err(Reason::of(TrackerError::NoSuchBranch { branch }));
        }
        if !self.ranged && index != 0 {
            return Err(Reason::of(TrackerError::StaticIndex));
        }
        match derive_script(self.text.as_str(), branch, index) {
            Err(cause) => Err(
                Reason { error: TrackerError::Underivable { branch, index }, cause },
            ),
            Ok(bytes) => Ok(DerivedScript { branch, index, scriptpubkey: hex_encode(&bytes) }),
        }
    }

    /// The address of a branch at an index.
    pub fn derive_address(&self, branch: u32, index: u32, network: &str) -> (r: Result<
        String,
        Reason,
    >)
        ensures
            (match r {
                Ok(address) => Ok(address@),
                Err(e) => Err(e@),
            }) == address_result(self@, branch, index, network@),
    {
        if branch as usize >= self.branches {
            return Err(Reason::of(TrackerError::NoSuchBranch { branch }));
        }
        if !self.ranged && index != 0 {
            return Err(Reason::of(TrackerError::StaticIndex));
        }
        match derive_address_text(self.text.as_str(), branch, index, network) {
            Err(cause) => Err(Reason { error: TrackerError::NoAddress { branch, index }, cause }),
            Ok(address) => Ok(address),
        }
    }
}

/// What was refused for the first branches is refused for more of them.
proof fn refusal_stays(set: SetModel, count: nat, more: nat, start: u32, end: u32)
    requires
        count <= more,
        branches_result(set, count, start, end) is Err,
    ensures
        branches_result(set, more, start, end) == branches_result(set, count, start, end),
    decreases more,
{
    if count < more {
        refusal_stays(set, count, (more - 1) as nat, start, end);
    }
}

/// What is wrong with a place in a descriptor, where something is.
pub open spec fn place_fault(set: SetModel, branch: u32, index: u32) -> Option<TrackerError> {
    if branch >= set.branches {
        Some(TrackerError::NoSuchBranch { branch })
    } else if !set.ranged && index != 0 {
        Some(TrackerError::StaticIndex)
    } else {
        None
    }
}

/// What the first gap of a branch says of the indexes.
proof fn first_gap_is(set: SetModel, branch: int, start: u32, end: u32)
    ensures
        match first_gap(set, branch, start, end) {
            None => forall|i: u32| start <= i < end ==> #[trigger] derivable(set, branch, i),
            Some(gap) => start <= gap < end && !derivable(set, branch, gap) && forall|i: u32|
                start <= i < gap ==> #[trigger] derivable(set, branch, i),
        },
    decreases end - start,
{
    if start < end && derivable(set, branch, start) {
        first_gap_is(set, branch, (start + 1) as u32, end);
    }
}

/// A script is that of the path of a branch at an index, in hexadecimal.
pub open spec fn is_script_of(
    script: ScriptModel,
    text: Seq<char>,
    branch: u32,
    index: u32,
) -> bool {
    &&& script.branch == branch
    &&& script.index == index
    &&& script_at(text, branch, index) matches Ok(bytes) && script.scriptpubkey == hex_text(bytes)
}

/// A range of a branch has the script of each of its indexes, one after the
/// other and no others. A descriptor without a wildcard has the script at index
/// zero and no other. A range that can be derived is not refused.
pub proof fn branch_range_is_whole(set: SetModel, branch: u32, start: u32, end: u32)
    ensures
        branch_range_result(set, branch, start, end) matches Ok(scripts) ==> {
            &&& branch < set.branches
            &&& start <= end
            &&& set.ranged ==> scripts.len() == end - start
            &&& !set.ranged ==> scripts.len() == (if start == 0 && end > 0 {
                1int
            } else {
                0
            })
            &&& forall|k: int|
                0 <= k < scripts.len() ==> is_script_of(
                    #[trigger] scripts[k],
                    set.text,
                    branch,
                    (start + k) as u32,
                )
        },
        branch < set.branches && start <= end && (forall|i: u32|
            start <= i < end && (set.ranged || i == 0) ==> (#[trigger] script_at(
                set.text,
                branch,
                i,
            )) is Ok) ==> branch_range_result(set, branch, start, end) is Ok,
{
    let last = script_end(set, end);
    first_gap_is(set, branch as int, start, last);
    match branch_range_result(set, branch, start, end) {
        Ok(scripts) => {
            assert forall|k: int| 0 <= k < scripts.len() implies is_script_of(
                #[trigger] scripts[k],
                set.text,
                branch,
                (start + k) as u32,
            ) by {
                assert(derivable(set, branch as int, (start + k) as u32));
            }
        },
        Err(_) => {
            if branch < set.branches && start <= end {
                let gap = first_gap(set, branch as int, start, last)->Some_0;
                assert(script_at(set.text, branch, gap) is Err);
            }
        },
    }
}

/// The scripts of the first branches of a range.
proof fn branches_are_whole(set: SetModel, count: nat, start: u32, end: u32)
    requires
        count <= u32::MAX,
        start <= end,
    ensures
        branches_result(set, count, start, end) matches Ok(scripts) ==> {
            &&& forall|k: int|
                0 <= k < scripts.len() ==> (#[trigger] scripts[k]).branch < count && start
                    <= scripts[k].index < end && is_script_of(
                    scripts[k],
                    set.text,
                    scripts[k].branch,
                    scripts[k].index,
                )
            &&& forall|b: u32, i: u32|
                b < count && start <= i < end ==> has_script(scripts, b, i)
        },
        (forall|b: u32, i: u32|
            b < count && start <= i < end ==> (#[trigger] script_at(set.text, b, i)) is Ok)
            ==> branches_result(set, count, start, end) is Ok,
    decreases count,
{
    if count > 0 {
        let fewer = (count - 1) as nat;
        branches_are_whole(set, fewer, start, end);
        first_gap_is(set, count - 1, start, end);
        let last = (count - 1) as u32;
        match branches_result(set, count, start, end) {
            Ok(scripts) => {
                let before = branches_result(set, fewer, start, end)->Ok_0;
                let more = branch_scripts(set, count - 1, start, end);
                assert(scripts == before + more);
                assert forall|k: int| 0 <= k < scripts.len() implies (
                #[trigger] scripts[k]).branch < count && start <= scripts[k].index < end
                    && is_script_of(
                    scripts[k],
                    set.text,
                    scripts[k].branch,
                    scripts[k].index,
                ) by {
                    if k < before.len() {
                        assert(scripts[k] == before[k]);
                    } else {
                        let j = k - before.len();
                        assert(scripts[k] == more[j]);
                        assert(derivable(set, count - 1, (start + j) as u32));
                    }
                }
                assert forall|b: u32, i: u32| b < count && start <= i < end implies has_script(
                    scripts,
                    b,
                    i,
                ) by {
                    if b < fewer {
                        assert(has_script(before, b, i));
                        let k = choose|k: int|
                            0 <= k < before.len() && (#[trigger] before[k]).branch == b
                                && before[k].index == i;
                        assert(scripts[k] == before[k]);
                    } else {
                        let j = i - start;
                        assert(more[j].branch == b && more[j].index == i);
                        assert(scripts[before.len() + j] == more[j]);
                    }
                }
            },
            Err(_) => {
                if forall|b: u32, i: u32|
                    b < count && start <= i < end ==> (#[trigger] script_at(set.text, b, i)) is Ok {
                    let gap = first_gap(set, count - 1, start, end)->Some_0;
                    assert(script_at(set.text, last, gap) is Ok);
                }
            },
        }
    }
}

/// A row of scripts has one of a branch at an index.
pub open spec fn has_script(scripts: Seq<ScriptModel>, branch: u32, index: u32) -> bool {
    exists|k: int|
        0 <= k < scripts.len() && (#[trigger] scripts[k]).branch == branch && scripts[k].index
            == index
}

/// A range of a descriptor has the script of every branch at each of its
/// indexes, and no other script. A range that can be derived is not refused.
pub proof fn range_is_whole(set: SetModel, start: u32, end: u32)
    requires
        set.branches <= u32::MAX,
    ensures
        range_result(set, start, end) matches Ok(scripts) ==> {
            &&& start <= end
            &&& set.ranged || (start == 0 && end <= 1)
            &&& forall|k: int|
                0 <= k < scripts.len() ==> (#[trigger] scripts[k]).branch < set.branches && start
                    <= scripts[k].index < end && is_script_of(
                    scripts[k],
                    set.text,
                    scripts[k].branch,
                    scripts[k].index,
                )
            &&& forall|b: u32, i: u32|
                b < set.branches && start <= i < end ==> has_script(scripts, b, i)
        },
        start <= end && (set.ranged || (start == 0 && end <= 1)) && (forall|b: u32, i: u32|
            b < set.branches && start <= i < end ==> (#[trigger] script_at(set.text, b, i)) is Ok)
            ==> range_result(set, start, end) is Ok,
{
    if start <= end {
        branches_are_whole(set, set.branches, start, end);
    }
}

/// A place has the script and the address that the descriptor derives for its
/// own branch and index, exactly where there is such a place: on a branch that
/// the descriptor has, and without a wildcard at index zero alone.
pub proof fn place_is_its_own(set: SetModel, branch: u32, index: u32, network: Seq<char>)
    ensures
        place_result(set, branch, index) matches Ok(script) ==> is_script_of(
            script,
            set.text,
            branch,
            index,
        ),
        place_result(set, branch, index) is Ok <==> branch < set.branches && (set.ranged || index
            == 0) && script_at(set.text, branch, index) is Ok,
        address_result(set, branch, index, network) matches Ok(address) ==> address_at(
            set.text,
            branch,
            index,
            network,
        ) == Ok::<Seq<char>, Seq<char>>(address),
        address_result(set, branch, index, network) is Ok <==> branch < set.branches && (set.ranged
            || index == 0) && address_at(set.text, branch, index, network) is Ok,
{
}

/// A descriptor is accepted exactly where its checksum of eight characters
/// stands and is right, it can be read, is sane, has branches, and has no
/// extended key of another network than the node's. What is accepted is the
/// descriptor itself.
pub proof fn accepted_descriptor_is_sound(text: Seq<char>, network: Seq<char>)
    ensures
        checked_set(text, network) matches Ok(set) ==> set.text == text && set.ranged
            == has_wildcard(text) && paths_of(text) == Ok::<usize, Seq<char>>(
            set.branches as usize,
        ) && 0 < set.branches <= u32::MAX,
        checked_set(text, network) is Ok <==> {
            &&& text.contains('#')
            &&& checksum_body(text) matches Ok(body) && body.len() + 9 == text.len()
            &&& descriptor_fault(text) is None
            &&& sanity_fault(text) is None
            &&& key_networks_of(text) == KeyNetworks::NoKeys || (key_networks_of(text)
                == KeyNetworks::Main && network == "bitcoin"@) || (key_networks_of(text)
                == KeyNetworks::Test && network != "bitcoin"@)
            &&& paths_of(text) matches Ok(count) && 0 < count <= u32::MAX
        },
{
}

/// The value of a hexadecimal digit.
pub open spec fn nibble(c: char) -> int {
    if '0' <= c && c <= '9' {
        c as int - '0' as int
    } else if 'a' <= c && c <= 'f' {
        c as int - 'a' as int + 10
    } else {
        16
    }
}

/// Bytes in hexadecimal can be read back: each byte is two digits, the first of
/// which counts sixteen times.
pub proof fn hexadecimal_is_read_back(bytes: Seq<u8>, i: int)
    requires
        0 <= i < bytes.len(),
    ensures
        hex_text(bytes).len() == 2 * bytes.len(),
        0 <= nibble(hex_text(bytes)[2 * i]) < 16,
        0 <= nibble(hex_text(bytes)[2 * i + 1]) < 16,
        bytes[i] == 16 * nibble(hex_text(bytes)[2 * i]) + nibble(hex_text(bytes)[2 * i + 1]),
    decreases bytes.len(),
{
    let rest = bytes.drop_last();
    let text = hex_text(bytes);
    if rest.len() > 0 {
        hexadecimal_is_read_back(rest, 0);
    } else {
        assert(hex_text(rest).len() == 0);
    }
    if i < rest.len() {
        hexadecimal_is_read_back(rest, i);
        assert(rest[i] == bytes[i]);
        assert(text[2 * i] == hex_text(rest)[2 * i]);
        assert(text[2 * i + 1] == hex_text(rest)[2 * i + 1]);
    } else {
        let last = bytes.last() as int;
        assert(text[2 * i] == hex_digit(last / 16));
        assert(text[2 * i + 1] == hex_digit(last % 16));
    }
}

/// A descriptor that is refused is refused for the first thing that is wrong with it:
/// its checksum, its form, its sanity, the network of its keys, and its branches.
pub proof fn refused_descriptor_says_why(text: Seq<char>, network: Seq<char>)
    requires
        checked_set(text, network) is Err,
    ensures
        ({
            let error = checked_set(text, network)->Err_0.error;
            let cause = checked_set(text, network)->Err_0.cause;
            let summed = text.contains('#') && checksum_body(text) is Ok && checksum_body(
                text,
            )->Ok_0.len() + 9 == text.len();
            &&& !text.contains('#') ==> error == TrackerError::ChecksumMissing
            &&& text.contains('#') && checksum_body(text) is Err ==> error
                == TrackerError::ChecksumInvalid && cause == checksum_body(text)->Err_0
            &&& text.contains('#') && checksum_body(text) is Ok && !summed ==> error
                == TrackerError::ChecksumMissing
            &&& summed && descriptor_fault(text) is Some ==> error
                == TrackerError::DescriptorInvalid && cause == descriptor_fault(text)->Some_0
            &&& summed && descriptor_fault(text) is None && sanity_fault(text) is Some ==> error
                == TrackerError::DescriptorInsane && cause == sanity_fault(text)->Some_0
            &&& summed && descriptor_fault(text) is None && sanity_fault(text) is None ==> {
                &&& key_networks_of(text) is Mixed ==> error == TrackerError::MixedNetworks
                &&& key_networks_of(text) is Main && network != "bitcoin"@ ==> error
                    == TrackerError::MainnetKey
                &&& key_networks_of(text) is Test && network == "bitcoin"@ ==> error
                    == TrackerError::TestnetKey
            }
        }),
{
}

} // verus!
