//! Causes for whole events, from their JSON text.

use ruma::{events::AnySyncTimelineEvent, serde::Raw};
use serde_json::value::to_raw_value;
use utd_cause::{
    CryptoContextInfo, DeviceLinkProblem, MilliSecondsSinceUnixEpoch, UnableToDecryptInfo,
    UnableToDecryptReason, UtdCause, VerificationLevel,
};

#[test]
fn test_a_missing_raw_event_means_we_guess_unknown() {
    // When we don't provide any JSON to check for membership, then we guess the UTD
    // is unknown.
    assert_eq!(
        UtdCause::determine(
            &raw_event(json(r#"{}"#)),
            some_crypto_context_info(),
            &UnableToDecryptInfo {
                session_id: None,
                reason: UnableToDecryptReason::MissingMegolmSession(None),
            }
        ),
        UtdCause::Unknown
    );
}

#[test]
fn test_if_there_is_no_membership_info_we_guess_unknown() {
    // If our JSON contains no membership info, then we guess the UTD is unknown.
    assert_eq!(
        UtdCause::determine(
            &raw_event(json(r#"{}"#)),
            some_crypto_context_info(),
            &UnableToDecryptInfo {
                session_id: None,
                reason: UnableToDecryptReason::MissingMegolmSession(None)
            }
        ),
        UtdCause::Unknown
    );
}

#[test]
fn test_if_membership_info_cant_be_parsed_we_guess_unknown() {
    // If our JSON contains a membership property but not the JSON we expected, then
    // we guess the UTD is unknown.
    assert_eq!(
        UtdCause::determine(
            &raw_event(json(r#"{ "unsigned": { "membership": 3 } }"#)),
            some_crypto_context_info(),
            &UnableToDecryptInfo {
                session_id: None,
                reason: UnableToDecryptReason::MissingMegolmSession(None)
            }
        ),
        UtdCause::Unknown
    );
}

#[test]
fn test_if_membership_is_invite_we_guess_unknown() {
    // If membership=invite then we expected to be sent the keys so the cause of the
    // UTD is unknown.
    assert_eq!(
        UtdCause::determine(
            &raw_event(json(r#"{ "unsigned": { "membership": "invite" } }"#),),
            some_crypto_context_info(),
            &UnableToDecryptInfo {
                session_id: None,
                reason: UnableToDecryptReason::MissingMegolmSession(None)
            }
        ),
        UtdCause::Unknown
    );
}

#[test]
fn test_if_membership_is_join_we_guess_unknown() {
    // If membership=join then we expected to be sent the keys so the cause of the
    // UTD is unknown.
    assert_eq!(
        UtdCause::determine(
            &raw_event(json(r#"{ "unsigned": { "membership": "join" } }"#)),
            some_crypto_context_info(),
            &UnableToDecryptInfo {
                session_id: None,
                reason: UnableToDecryptReason::MissingMegolmSession(None)
            }
        ),
        UtdCause::Unknown
    );
}

#[test]
fn test_if_membership_is_leave_we_guess_membership() {
    // If membership=leave then we have an explanation for why we can't decrypt,
    // until we have MSC3061.
    assert_eq!(
        UtdCause::determine(
            &raw_event(json(r#"{ "unsigned": { "membership": "leave" } }"#)),
            some_crypto_context_info(),
            &UnableToDecryptInfo {
                session_id: None,
                reason: UnableToDecryptReason::MissingMegolmSession(None)
            }
        ),
        UtdCause::SentBeforeWeJoined
    );
}

#[test]
fn test_if_reason_is_not_missing_key_we_guess_unknown_even_if_membership_is_leave() {
    // If the UnableToDecryptReason is other than MissingMegolmSession or
    // UnknownMegolmMessageIndex, we do not know the reason for the failure
    // even if membership=leave.
    assert_eq!(
        UtdCause::determine(
            &raw_event(json(r#"{ "unsigned": { "membership": "leave" } }"#)),
            some_crypto_context_info(),
            &UnableToDecryptInfo {
                session_id: None,
                reason: UnableToDecryptReason::MalformedEncryptedEvent
            }
        ),
        UtdCause::Unknown
    );
}

#[test]
fn test_if_unstable_prefix_membership_is_leave_we_guess_membership() {
    // Before MSC4115 is merged, we support the unstable prefix too.
    assert_eq!(
        UtdCause::determine(
            &raw_event(json(r#"{ "unsigned": { "io.element.msc4115.membership": "leave" } }"#)),
            some_crypto_context_info(),
            &UnableToDecryptInfo {
                session_id: None,
                reason: UnableToDecryptReason::MissingMegolmSession(None)
            }
        ),
        UtdCause::SentBeforeWeJoined
    );
}

#[test]
fn test_verification_violation_is_passed_through() {
    assert_eq!(
        UtdCause::determine(
            &raw_event(json(r#"{}"#)),
            some_crypto_context_info(),
            &UnableToDecryptInfo {
                session_id: None,
                reason: UnableToDecryptReason::SenderIdentityNotTrusted(
                    VerificationLevel::VerificationViolation,
                )
            }
        ),
        UtdCause::VerificationViolation
    );
}

#[test]
fn test_unsigned_device_is_passed_through() {
    assert_eq!(
        UtdCause::determine(
            &raw_event(json(r#"{}"#)),
            some_crypto_context_info(),
            &UnableToDecryptInfo {
                session_id: None,
                reason: UnableToDecryptReason::SenderIdentityNotTrusted(
                    VerificationLevel::UnsignedDevice,
                )
            }
        ),
        UtdCause::UnsignedDevice
    );
}

#[test]
fn test_unknown_device_is_passed_through() {
    assert_eq!(
        UtdCause::determine(
            &raw_event(json(r#"{}"#)),
            some_crypto_context_info(),
            &UnableToDecryptInfo {
                session_id: None,
                reason: UnableToDecryptReason::SenderIdentityNotTrusted(
                    VerificationLevel::UnlinkedDevice(DeviceLinkProblem::MissingDevice)
                )
            }
        ),
        UtdCause::UnknownDevice
    );
}

#[test]
fn test_historical_expected_reason_depending_on_origin_ts_for_missing_session() {
    let message_creation_ts: i32 = 10000;
    let utd_event = a_utd_event_with_origin_ts(message_creation_ts);

    let older_than_event_device = CryptoContextInfo {
        device_creation_ts: MilliSecondsSinceUnixEpoch(
            (message_creation_ts - 1000).try_into().unwrap(),
        ),
        is_backup_configured: true,
    };

    assert_eq!(
        UtdCause::determine(
            &raw_event(json(r#"{}"#)),
            older_than_event_device,
            &UnableToDecryptInfo {
                session_id: None,
                reason: UnableToDecryptReason::MissingMegolmSession(None)
            }
        ),
        UtdCause::Unknown
    );

    let newer_than_event_device = CryptoContextInfo {
        device_creation_ts: MilliSecondsSinceUnixEpoch(
            (message_creation_ts + 1000).try_into().unwrap(),
        ),
        is_backup_configured: true,
    };

    assert_eq!(
        UtdCause::determine(
            &utd_event,
            newer_than_event_device,
            &UnableToDecryptInfo {
                session_id: None,
                reason: UnableToDecryptReason::MissingMegolmSession(None)
            }
        ),
        UtdCause::HistoricalMessage
    );
}

#[test]
fn test_historical_expected_reason_depending_on_origin_ts_for_ratcheted_session() {
    let message_creation_ts: i32 = 10000;
    let utd_event = a_utd_event_with_origin_ts(message_creation_ts);

    let older_than_event_device = CryptoContextInfo {
        device_creation_ts: MilliSecondsSinceUnixEpoch(
            (message_creation_ts - 1000).try_into().unwrap(),
        ),
        is_backup_configured: true,
    };

    assert_eq!(
        UtdCause::determine(
            &raw_event(json(r#"{}"#)),
            older_than_event_device,
            &UnableToDecryptInfo {
                session_id: None,
                reason: UnableToDecryptReason::UnknownMegolmMessageIndex
            }
        ),
        UtdCause::Unknown
    );

    let newer_than_event_device = CryptoContextInfo {
        device_creation_ts: MilliSecondsSinceUnixEpoch(
            (message_creation_ts + 1000).try_into().unwrap(),
        ),
        is_backup_configured: true,
    };

    assert_eq!(
        UtdCause::determine(
            &utd_event,
            newer_than_event_device,
            &UnableToDecryptInfo {
                session_id: None,
                reason: UnableToDecryptReason::UnknownMegolmMessageIndex
            }
        ),
        UtdCause::HistoricalMessage
    );
}

#[test]
fn test_historical_expected_reason_depending_on_origin_only_for_correct_reason() {
    let message_creation_ts: i32 = 10000;
    let utd_event = a_utd_event_with_origin_ts(message_creation_ts);

    let newer_than_event_device = CryptoContextInfo {
        device_creation_ts: MilliSecondsSinceUnixEpoch(
            (message_creation_ts + 1000).try_into().unwrap(),
        ),
        is_backup_configured: true,
    };

    assert_eq!(
        UtdCause::determine(
            &utd_event,
            newer_than_event_device,
            &UnableToDecryptInfo {
                session_id: None,
                reason: UnableToDecryptReason::UnknownMegolmMessageIndex
            }
        ),
        UtdCause::HistoricalMessage
    );

    assert_eq!(
        UtdCause::determine(
            &utd_event,
            newer_than_event_device,
            &UnableToDecryptInfo {
                session_id: None,
                reason: UnableToDecryptReason::MalformedEncryptedEvent
            }
        ),
        UtdCause::Unknown
    );

    assert_eq!(
        UtdCause::determine(
            &utd_event,
            newer_than_event_device,
            &UnableToDecryptInfo {
                session_id: None,
                reason: UnableToDecryptReason::MegolmDecryptionFailure
            }
        ),
        UtdCause::Unknown
    );
}

#[test]
fn test_historical_expected_only_if_backup_configured() {
    let message_creation_ts: i32 = 10000;
    let utd_event = a_utd_event_with_origin_ts(message_creation_ts);

    let crypto_context_info = CryptoContextInfo {
        device_creation_ts: MilliSecondsSinceUnixEpoch(
            (message_creation_ts + 1000).try_into().unwrap(),
        ),
        is_backup_configured: false,
    };

    assert_eq!(
        UtdCause::determine(
            &utd_event,
            crypto_context_info,
            &UnableToDecryptInfo {
                session_id: None,
                reason: UnableToDecryptReason::MissingMegolmSession(None)
            }
        ),
        UtdCause::Unknown
    );

    assert_eq!(
        UtdCause::determine(
            &utd_event,
            crypto_context_info,
            &UnableToDecryptInfo {
                session_id: None,
                reason: UnableToDecryptReason::UnknownMegolmMessageIndex
            }
        ),
        UtdCause::Unknown
    );
}

fn a_utd_event_with_origin_ts(origin_server_ts: i32) -> String {
    // The values don't matter much but the expected fields should be there.
    let mut event = json(
        r#"{
            "type": "m.room.encrypted",
            "event_id": "$0",
            "content": {
                "algorithm": "m.megolm.v1.aes-sha2",
                "ciphertext": "FOO",
                "sender_key": "SENDERKEYSENDERKEY",
                "device_id": "ABCDEFGH",
                "session_id": "A0"
            },
            "sender": "@bob:localhost",
            "unsigned": { "membership": "join" }
        }"#,
    );
    event["origin_server_ts"] = origin_server_ts.into();
    raw_event(event)
}

fn json(text: &str) -> serde_json::Value {
    serde_json::from_str(text).unwrap()
}

fn raw_event(value: serde_json::Value) -> String {
    let raw = Raw::<AnySyncTimelineEvent>::from_json(to_raw_value(&value).unwrap());
    raw.json().get().to_owned()
}

fn some_crypto_context_info() -> CryptoContextInfo {
    CryptoContextInfo {
        device_creation_ts: MilliSecondsSinceUnixEpoch(42),
        is_backup_configured: false,
    }
}
