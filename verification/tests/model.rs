use cln_tracker::error::TrackerError;
use cln_tracker::model::{
    default_confirmations, default_lookahead, outpoint_owner, owner_prefix, parse_owner,
    script_owner, validate_confirmations, validate_lookahead, validate_name, DescriptorStatus,
    WatchOwner,
};

#[test]
fn owners_round_trip() {
    assert_eq!(
        parse_owner(&script_owner("treasury", 1, 42)),
        Some(WatchOwner::Script {
            name: "treasury".to_owned(),
            branch: 1,
            index: 42,
        })
    );
    let outpoint = "00aabb:3";
    assert_eq!(
        parse_owner(&outpoint_owner("treasury", outpoint)),
        Some(WatchOwner::Outpoint {
            name: "treasury".to_owned(),
            outpoint: outpoint.to_owned(),
        })
    );
}

#[test]
fn names_are_safe_for_owner_paths_and_datastore_keys() {
    assert!(validate_name("cold-wallet_2.receive").is_ok());
    assert!(validate_name("").is_err());
    assert!(validate_name("bad/name").is_err());
    assert!(validate_name("spaces are bad").is_err());
}

#[test]
fn other_owners_are_not_read() {
    assert_eq!(script_owner("a", 1, 42), "plugin/tracker/a/spk/1/42");
    assert_eq!(owner_prefix("a"), "plugin/tracker/a/");
    for owner in [
        "plugin/tracker",
        "plugin/tracker/a",
        "plugin/tracker/a/spk/1",
        "plugin/tracker/a/spk/1/2/3",
        "plugin/tracker/a/spk/x/2",
        "plugin/tracker/a/spk/1/4294967296",
        "plugin/tracker/a/outpoint/aa:0/more",
        "plugin/tracker/a/scid/1",
        "wallet/a/spk/1/2",
    ] {
        assert_eq!(parse_owner(owner), None);
    }
}

#[test]
fn bounds_and_defaults() {
    assert_eq!(default_lookahead(), 20);
    assert_eq!(default_confirmations(), 1);
    assert_eq!(DescriptorStatus::default(), DescriptorStatus::Active);
    assert_eq!(validate_lookahead(0), Err(TrackerError::LookaheadZero));
    assert_eq!(validate_lookahead(100_000), Ok(()));
    assert_eq!(validate_lookahead(100_001), Err(TrackerError::LookaheadTooLarge));
    assert_eq!(validate_confirmations(0), Err(TrackerError::ConfirmationsZero));
    assert_eq!(validate_confirmations(2_016), Ok(()));
    assert_eq!(
        validate_confirmations(2_017),
        Err(TrackerError::ConfirmationsTooLarge)
    );
    assert_eq!(validate_name(&"a".repeat(64)), Ok(()));
    assert_eq!(validate_name(&"a".repeat(65)), Err(TrackerError::NameTooLong));
}
