use cln_tracker::descriptor::{
    accept_descriptor, DescriptorReading, DescriptorSet, KeyNetworks,
};
use cln_tracker::error::TrackerError;
use miniscript::bitcoin::bip32::{Xpriv, Xpub};
use miniscript::bitcoin::secp256k1::Secp256k1;
use miniscript::bitcoin::NetworkKind;
use miniscript::descriptor::checksum::Engine;
use miniscript::descriptor::{checksum, Descriptor, DescriptorPublicKey};
use std::str::FromStr;

const STATIC_BODY: &str =
    "wpkh(0279be667ef9dcbbac55a06295ce870b07029bfcdb2dce28d959f2815b16f81798)";

fn with_checksum(body: &str) -> String {
    Descriptor::<DescriptorPublicKey>::from_str(body)
        .unwrap()
        .to_string()
}

fn plain_checksum(body: &str) -> String {
    let mut engine = Engine::new();
    engine.input(body).unwrap();
    format!("{}#{}", body, engine.checksum())
}

fn extended_key(network: NetworkKind, seed: u8) -> String {
    let secp = Secp256k1::new();
    let private = Xpriv::new_master(network, &[seed; 32]).unwrap();
    Xpub::from_priv(&secp, &private).to_string()
}

#[test]
fn checksum_is_mandatory_and_verified() {
    let body = "wpkh(0279be667ef9dcbbac55a06295ce870b07029bfcdb2dce28d959f2815b16f81798)";
    assert!(DescriptorSet::parse_checked(body, "regtest").is_err());
    let checked = with_checksum(body);
    assert!(DescriptorSet::parse_checked(&checked, "regtest").is_ok());
    let mut bad = checked;
    bad.pop();
    bad.push('q');
    assert!(DescriptorSet::parse_checked(&bad, "regtest").is_err());
}

#[test]
fn static_descriptor_has_exactly_one_script() {
    let descriptor = with_checksum(
        "wpkh(0279be667ef9dcbbac55a06295ce870b07029bfcdb2dce28d959f2815b16f81798)",
    );
    let set = DescriptorSet::parse_checked(&descriptor, "regtest").unwrap();
    assert!(!set.is_ranged());
    assert_eq!(set.derive_range(0, 1).unwrap().len(), 1);
    assert!(set.derive_range(0, 2).is_err());
}

#[test]
fn derives_ranged_descriptor() {
    let body = "tr(xpub6BgBgsespWvERF3LHQu6CnqdvfEvtMcQjYrcRzx53QJjSxarj2afYWcLteoGVky7D3UKDP9QyrLprQ3VCECoY49yfdDEHGCtMMj92pReUsQ/0/*)";
    let descriptor = with_checksum(body);
    let set = DescriptorSet::parse_checked(&descriptor, "bitcoin").unwrap();
    assert!(set.is_ranged());
    assert_eq!(set.derive_range(0, 3).unwrap().len(), 3);
}

#[test]
fn script_and_address_of_a_known_key() {
    let set = DescriptorSet::parse_checked(&with_checksum(STATIC_BODY), "regtest").unwrap();
    let script = set.derive_one(0, 0).unwrap();
    assert_eq!(script.branch, 0);
    assert_eq!(script.index, 0);
    assert_eq!(
        script.scriptpubkey,
        "0014751e76e8199196d454941c45d1b3a323f1433bd6"
    );
    assert_eq!(
        set.derive_address(0, 0, "bitcoin").unwrap(),
        "bc1qw508d6qejxtdg4y5r3zarvary0c5xw7kv8f3t4"
    );
    assert_eq!(
        set.derive_address(0, 0, "regtest").unwrap(),
        "bcrt1qw508d6qejxtdg4y5r3zarvary0c5xw7kygt080"
    );
    assert_eq!(
        set.derive_address(0, 0, "nowhere").map_err(|reason| reason.error),
        Err(TrackerError::NoAddress { branch: 0, index: 0 })
    );
}

#[test]
fn refusals_name_their_reason() {
    let key = extended_key(NetworkKind::Test, 7);
    let main = extended_key(NetworkKind::Main, 7);
    let error = |text: &str, network: &str| {
        DescriptorSet::parse_checked(text, network)
            .err()
            .map(|reason| reason.error)
    };
    assert_eq!(
        error(STATIC_BODY, "regtest"),
        Some(TrackerError::ChecksumMissing)
    );
    assert_eq!(
        error(&format!("{}#aaaaaaaa", STATIC_BODY), "regtest"),
        Some(TrackerError::ChecksumInvalid)
    );
    assert_eq!(
        error(&plain_checksum("wpkh(nothing)"), "regtest"),
        Some(TrackerError::DescriptorInvalid)
    );
    let ranged = with_checksum(&format!("wpkh({}/0/*)", key));
    assert_eq!(error(&ranged, "bitcoin"), Some(TrackerError::TestnetKey));
    assert_eq!(error(&ranged, "regtest"), None);
    let mainnet = with_checksum(&format!("wpkh({}/0/*)", main));
    assert_eq!(error(&mainnet, "regtest"), Some(TrackerError::MainnetKey));
    assert_eq!(error(&mainnet, "bitcoin"), None);
    let mixed = with_checksum(&format!("wsh(multi(1,{}/0/*,{}/0/*))", key, main));
    assert_eq!(error(&mixed, "regtest"), Some(TrackerError::MixedNetworks));
}

#[test]
fn paths_become_branches() {
    let key = extended_key(NetworkKind::Test, 9);
    let text = with_checksum(&format!("wpkh({}/<0;1>/*)", key));
    let set = DescriptorSet::parse_checked(&text, "regtest").unwrap();
    assert!(set.is_ranged());
    assert_eq!(set.branch_count(), 2);
    let scripts = set.derive_range(0, 2).unwrap();
    let places: Vec<(u32, u32)> = scripts.iter().map(|s| (s.branch, s.index)).collect();
    assert_eq!(places, vec![(0, 0), (0, 1), (1, 0), (1, 1)]);
    let one = |path: &str| {
        let text = with_checksum(&format!("wpkh({}/{}/*)", key, path));
        DescriptorSet::parse_checked(&text, "regtest")
            .unwrap()
            .derive_one(0, 1)
            .unwrap()
            .scriptpubkey
    };
    assert_eq!(scripts[1].scriptpubkey, one("0"));
    assert_eq!(scripts[3].scriptpubkey, one("1"));
    assert_eq!(
        set.derive_one(2, 0).err().map(|reason| reason.error),
        Some(TrackerError::NoSuchBranch { branch: 2 })
    );
    assert_eq!(
        set.derive_branch_range(1, 0, 2).unwrap(),
        vec![scripts[2].clone(), scripts[3].clone()]
    );
    assert_eq!(
        set.derive_branch_range(2, 0, 2).err().map(|reason| reason.error),
        Some(TrackerError::NoSuchBranch { branch: 2 })
    );
    assert_eq!(
        set.derive_branch_range(0, 2, 1).err().map(|reason| reason.error),
        Some(TrackerError::InvalidRange { start: 2, end: 1 })
    );
    assert_eq!(
        set.derive_range(3, 2).err().map(|reason| reason.error),
        Some(TrackerError::InvalidRange { start: 3, end: 2 })
    );
    assert_eq!(
        set.derive_one(0, 0x8000_0000).err().map(|reason| reason.error),
        Some(TrackerError::Underivable { branch: 0, index: 0x8000_0000 })
    );
}

#[test]
fn static_descriptors_have_index_zero_alone() {
    let set = DescriptorSet::parse_checked(&with_checksum(STATIC_BODY), "regtest").unwrap();
    assert_eq!(set.derive_one(0, 1).err().map(|reason| reason.error), Some(TrackerError::StaticIndex));
    assert_eq!(set.derive_range(0, 2).err().map(|reason| reason.error), Some(TrackerError::StaticRange));
    assert_eq!(set.derive_branch_range(0, 0, 5).unwrap().len(), 1);
    assert_eq!(set.derive_branch_range(0, 1, 2).unwrap().len(), 0);
}

#[test]
fn refusals_say_what_was_behind_them() {
    let refused = |text: &str| {
        DescriptorSet::parse_checked(text, "regtest")
            .err()
            .unwrap()
            .about("regtest")
    };
    let bad = format!("{}#aaaaaaaa", STATIC_BODY);
    let cause = format!(
        "{:#}",
        anyhow::Error::new(checksum::verify_checksum(&bad).unwrap_err())
    );
    assert!(!cause.is_empty());
    assert_eq!(refused(&bad).cause, cause);
    assert_eq!(
        refused(&bad).message(),
        format!("descriptor checksum verification failed: {}", cause)
    );
    assert_eq!(
        refused(&bad).headline(),
        "descriptor checksum verification failed"
    );
    let nothing = plain_checksum("wpkh(nothing)");
    let cause = format!(
        "{:#}",
        anyhow::Error::new(Descriptor::<DescriptorPublicKey>::from_str(&nothing).unwrap_err())
    );
    assert_eq!(
        refused(&nothing).message(),
        format!("invalid output descriptor: {}", cause)
    );
    assert_eq!(refused(STATIC_BODY).message(), "descriptor checksum is required");
    let key = extended_key(NetworkKind::Test, 9);
    let text = with_checksum(&format!("wpkh({}/<0;1>/*)", key));
    let set = DescriptorSet::parse_checked(&text, "regtest").unwrap();
    let hardened = set.derive_one(1, 0x8000_0000).err().unwrap();
    let single = Descriptor::<DescriptorPublicKey>::from_str(&text)
        .unwrap()
        .into_single_descriptors()
        .unwrap()
        .remove(1);
    let cause = single.at_derivation_index(0x8000_0000).unwrap_err().to_string();
    assert_eq!(
        hardened.about("").message(),
        format!("unable to derive branch 1 index 2147483648: {}", cause)
    );
}

#[test]
fn insane_and_uneven_descriptors_are_refused() {
    let first = extended_key(NetworkKind::Test, 7);
    let second = extended_key(NetworkKind::Test, 9);
    let refused = |body: &str| {
        DescriptorSet::parse_checked(&plain_checksum(body), "regtest")
            .err()
            .unwrap()
    };
    let uneven = format!("wsh(multi(1,{}/<0;1>/*,{}/<0;1;2>/*))", first, second);
    let reason = refused(&uneven);
    assert_eq!(reason.error, TrackerError::DescriptorInvalid);
    assert!(!reason.cause.is_empty());
    let insane = format!("wsh(or_d(pk({}/0/*),pk({}/0/*)))", first, first);
    let reason = refused(&insane);
    assert_eq!(reason.error, TrackerError::DescriptorInsane);
    assert!(!reason.cause.is_empty());
}

#[test]
fn a_path_may_repeat_a_key_in_a_leaf() {
    let inner = extended_key(NetworkKind::Test, 3);
    let key = extended_key(NetworkKind::Test, 5);
    let body = format!(
        "tr({}/0/*,and_v(v:pk({}/<0;1>/*),pk({}/<0;2>/*)))",
        inner, key, key
    );
    let text = plain_checksum(&body);
    let set = DescriptorSet::parse_checked(&text, "regtest").unwrap();
    assert_eq!(set.branch_count(), 2);
    let singles = Descriptor::<DescriptorPublicKey>::from_str(&text)
        .unwrap()
        .into_single_descriptors()
        .unwrap();
    let repeated = singles[0].to_string();
    assert!(Descriptor::<DescriptorPublicKey>::from_str(&repeated).is_err());
    let secp = Secp256k1::new();
    for branch in 0..2 {
        let script = singles[branch as usize]
            .at_derivation_index(4)
            .unwrap()
            .derived_descriptor(&secp)
            .script_pubkey();
        let expected: String = script.as_bytes().iter().map(|b| format!("{:02x}", b)).collect();
        assert_eq!(set.derive_one(branch, 4).unwrap().scriptpubkey, expected);
        assert!(set.derive_address(branch, 4, "regtest").is_ok());
    }
}

#[test]
fn a_reading_decides_what_is_accepted() {
    let text = with_checksum(STATIC_BODY);
    let reading = |branches: Result<usize, String>| DescriptorReading {
        body: Ok(STATIC_BODY.to_owned()),
        invalid: None,
        insane: None,
        networks: KeyNetworks::NoKeys,
        ranged: false,
        branches,
    };
    let accepted = accept_descriptor(&text, "regtest", reading(Ok(3))).unwrap();
    assert_eq!(accepted.branch_count(), 3);
    let none = accept_descriptor(&text, "regtest", reading(Ok(0))).err().unwrap();
    assert_eq!(none.error, TrackerError::NoBranches);
    let uneven = accept_descriptor(&text, "regtest", reading(Err("uneven".to_owned())));
    assert_eq!(
        uneven.err().unwrap().about("").message(),
        "invalid multipath descriptor: uneven"
    );
    assert_eq!(
        accepted.derive_one(2, 0).err().unwrap().about("").message(),
        "unable to derive branch 2 index 0"
    );
}
