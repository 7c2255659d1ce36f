//! Causes from evidence that is given outright.

use utd_cause::{
    CryptoContextInfo, DeviceLinkProblem, Membership, MilliSecondsSinceUnixEpoch,
    UnableToDecryptInfo, UnableToDecryptReason, UtdCause, VerificationLevel, WithheldCode,
};

const MEMBERSHIPS: [Option<Membership>; 4] =
    [None, Some(Membership::Leave), Some(Membership::Invite), Some(Membership::Join)];

fn context(device_creation_ts: u64, is_backup_configured: bool) -> CryptoContextInfo {
    CryptoContextInfo {
        device_creation_ts: MilliSecondsSinceUnixEpoch(device_creation_ts),
        is_backup_configured,
    }
}

fn cause(
    membership: Option<Membership>,
    sent: Option<u64>,
    context: CryptoContextInfo,
    reason: UnableToDecryptReason,
) -> UtdCause {
    UtdCause::from_evidence(
        membership,
        sent.map(MilliSecondsSinceUnixEpoch),
        context,
        &UnableToDecryptInfo { session_id: None, reason },
    )
}

fn missing_key() -> [UnableToDecryptReason; 2] {
    [
        UnableToDecryptReason::MissingMegolmSession(None),
        UnableToDecryptReason::UnknownMegolmMessageIndex,
    ]
}

/// Checks that the cause is the expected one whatever the evidence.
fn assert_always(reason: UnableToDecryptReason, expected: UtdCause) {
    for membership in MEMBERSHIPS {
        for sent in [None, Some(0), Some(100)] {
            for backup in [false, true] {
                assert_eq!(
                    cause(membership, sent, context(50, backup), reason.clone()),
                    expected,
                    "{:?}",
                    reason
                );
            }
        }
    }
}

#[test]
fn the_causes_are_numbered_in_order() {
    assert_eq!(UtdCause::Unknown as u8, 0);
    assert_eq!(UtdCause::SentBeforeWeJoined as u8, 1);
    assert_eq!(UtdCause::VerificationViolation as u8, 2);
    assert_eq!(UtdCause::UnsignedDevice as u8, 3);
    assert_eq!(UtdCause::UnknownDevice as u8, 4);
    assert_eq!(UtdCause::HistoricalMessage as u8, 5);
    assert_eq!(UtdCause::WithheldForUnverifiedOrInsecureDevice as u8, 6);
    assert_eq!(UtdCause::WithheldBySender as u8, 7);
}

#[test]
fn the_cause_is_unknown_by_default() {
    assert_eq!(UtdCause::default(), UtdCause::Unknown);
}

#[test]
fn the_code_of_a_withheld_key_decides() {
    assert_always(
        UnableToDecryptReason::MissingMegolmSession(Some(WithheldCode::Unverified)),
        UtdCause::WithheldForUnverifiedOrInsecureDevice,
    );
    for code in [
        WithheldCode::Blacklisted,
        WithheldCode::Unauthorised,
        WithheldCode::Unavailable,
        WithheldCode::NoOlm,
        WithheldCode::Custom("m.unverified".to_owned()),
    ] {
        assert_always(
            UnableToDecryptReason::MissingMegolmSession(Some(code)),
            UtdCause::WithheldBySender,
        );
    }
}

#[test]
fn trust_problems_have_causes_of_their_own() {
    for (level, expected) in [
        (VerificationLevel::VerificationViolation, UtdCause::VerificationViolation),
        (VerificationLevel::UnsignedDevice, UtdCause::UnsignedDevice),
        (
            VerificationLevel::UnlinkedDevice(DeviceLinkProblem::MissingDevice),
            UtdCause::UnknownDevice,
        ),
        (
            VerificationLevel::UnlinkedDevice(DeviceLinkProblem::InsecureSource),
            UtdCause::UnknownDevice,
        ),
        (VerificationLevel::UnverifiedIdentity, UtdCause::Unknown),
    ] {
        assert_always(UnableToDecryptReason::SenderIdentityNotTrusted(level), expected);
    }
}

#[test]
fn other_reasons_are_unknown_whatever_the_evidence() {
    for reason in [
        UnableToDecryptReason::Unknown,
        UnableToDecryptReason::MalformedEncryptedEvent,
        UnableToDecryptReason::MegolmDecryptionFailure,
        UnableToDecryptReason::PayloadDeserializationFailure,
        UnableToDecryptReason::MismatchedIdentityKeys,
    ] {
        assert_always(reason, UtdCause::Unknown);
    }
}

#[test]
fn having_left_explains_a_missing_key_before_all_else() {
    for reason in missing_key() {
        for sent in [None, Some(10), Some(100)] {
            for backup in [false, true] {
                assert_eq!(
                    cause(Some(Membership::Leave), sent, context(50, backup), reason.clone()),
                    UtdCause::SentBeforeWeJoined
                );
            }
        }
    }
}

#[test]
fn a_missing_key_is_historical_if_older_than_the_device_with_a_backup() {
    for reason in missing_key() {
        for membership in [None, Some(Membership::Invite), Some(Membership::Join)] {
            let of = |sent, ts, backup| cause(membership, sent, context(ts, backup), reason.clone());
            assert_eq!(of(Some(49), 50, true), UtdCause::HistoricalMessage);
            assert_eq!(of(Some(49), 51, true), UtdCause::HistoricalMessage);
            assert_eq!(of(Some(49), u64::MAX, true), UtdCause::HistoricalMessage);
            assert_eq!(of(Some(49), 50, false), UtdCause::Unknown);
            assert_eq!(of(Some(50), 50, true), UtdCause::Unknown);
            assert_eq!(of(Some(51), 50, true), UtdCause::Unknown);
            assert_eq!(of(None, 50, true), UtdCause::Unknown);
        }
    }
}

#[test]
fn a_silent_event_leaves_a_missing_key_unexplained() {
    for reason in missing_key() {
        assert_eq!(cause(None, None, context(50, true), reason.clone()), UtdCause::Unknown);
        assert_eq!(cause(None, None, context(50, false), reason), UtdCause::Unknown);
    }
}
