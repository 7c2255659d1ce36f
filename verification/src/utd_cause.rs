//! The cause of an unable-to-decrypt (UTD) event, and how it is found.

use vstd::prelude::*;

use crate::decryption::{UnableToDecryptInfo, UnableToDecryptReason, VerificationLevel, WithheldCode};
use crate::event::{event_membership, event_time, membership_at_event, time_of_event};
use crate::membership::Membership;
use crate::time::{millis, MilliSecondsSinceUnixEpoch};

verus! {

/// Our best guess at the reason why an event can't be decrypted.
///
/// The variants are numbered from zero in the order in which they stand here.
#[derive(Clone, Copy, Debug, Hash, PartialEq, Eq, Structural)]
pub enum UtdCause {
    /// We don't have an explanation for why this UTD happened - it is probably a bug, or a
    /// network split between the two homeservers.
    Unknown,
    /// We are missing the keys for this event, and the event was sent when we were not a member
    /// of the room (or invited).
    SentBeforeWeJoined,
    /// The message was sent by a user identity we have not verified, but the user was
    /// previously verified.
    VerificationViolation,
    /// The sending device is required to be signed by its owner, and it was not.
    UnsignedDevice,
    /// The sending device is required to be signed by its owner, and we were unable to securely
    /// find the device.
    ///
    /// This could be because the device has since been deleted, because we haven't yet
    /// downloaded it from the server, or because the session data was obtained from an insecure
    /// source (imported from a file, obtained from a legacy (asymmetric) backup, unsafe key
    /// forward, etc.)
    UnknownDevice,
    /// We are missing the keys for this event, but it is a "device-historical" message, and a
    /// backup is configured from which the keys can be had.
    ///
    /// Device-historical means that the message was sent before the current device existed (but
    /// the current user was probably a member of the room at the time the message was sent).
    /// Not to be confused with pre-join or pre-invite messages (see
    /// [`UtdCause::SentBeforeWeJoined`] for that).
    HistoricalMessage,
    /// The keys for this event are intentionally withheld. The sender has refused to share the
    /// key because our device does not meet the sender's security requirements.
    WithheldForUnverifiedOrInsecureDevice,
    /// The keys for this event are missing, likely because the sender was unable to share them
    /// (e.g., failure to establish an Olm 1:1 channel). Alternatively, the sender may have
    /// deliberately excluded this device by cherry-picking and blocking it, no action can be
    /// taken on our side.
    WithheldBySender,
}

impl Default for UtdCause {
    fn default() -> (cause: Self)
        ensures
            cause == UtdCause::Unknown,
    {
        UtdCause::Unknown
    }
}

/// Contextual crypto information used by [`UtdCause::determine`] to properly identify an
/// Unable-To-Decrypt cause in addition to the [`UnableToDecryptInfo`] and raw event info.
#[derive(Debug, Clone, Copy)]
pub struct CryptoContextInfo {
    /// The current device creation timestamp, used as a heuristic to determine if an event is
    /// device-historical or not (sent before the current device existed).
    pub device_creation_ts: MilliSecondsSinceUnixEpoch,
    /// True if key storage is correctly set up and can be used by the current client to
    /// download and decrypt message keys.
    pub is_backup_configured: bool,
}

/// The key is missing, and the sender has not said that they withheld it.
pub open spec fn is_missing_key(reason: UnableToDecryptReason) -> bool {
    reason == UnableToDecryptReason::MissingMegolmSession(None)
        || reason == UnableToDecryptReason::UnknownMegolmMessageIndex
}

/// The event was sent before the device was created, and there is a backup to get its key from.
pub open spec fn is_historical(sent: Option<u64>, context: CryptoContextInfo) -> bool {
    &&& context.is_backup_configured
    &&& sent matches Some(millis) && millis < context.device_creation_ts.0
}

/// The cause of a missing key, given our membership when the event was sent and the time when
/// that was, as far as the event tells.
pub open spec fn missing_key_cause(
    membership: Option<Membership>,
    sent: Option<u64>,
    context: CryptoContextInfo,
) -> UtdCause {
    if membership == Some(Membership::Leave) {
        UtdCause::SentBeforeWeJoined
    } else if is_historical(sent, context) {
        UtdCause::HistoricalMessage
    } else {
        UtdCause::Unknown
    }
}

/// The cause of a failure to decrypt, given what the event tells.
pub open spec fn cause_of(
    membership: Option<Membership>,
    sent: Option<u64>,
    context: CryptoContextInfo,
    reason: UnableToDecryptReason,
) -> UtdCause {
    match reason {
        UnableToDecryptReason::MissingMegolmSession(Some(WithheldCode::Unverified)) =>
            UtdCause::WithheldForUnverifiedOrInsecureDevice,
        UnableToDecryptReason::MissingMegolmSession(Some(_)) => UtdCause::WithheldBySender,
        UnableToDecryptReason::SenderIdentityNotTrusted(VerificationLevel::VerificationViolation) =>
            UtdCause::VerificationViolation,
        UnableToDecryptReason::SenderIdentityNotTrusted(VerificationLevel::UnsignedDevice) =>
            UtdCause::UnsignedDevice,
        UnableToDecryptReason::SenderIdentityNotTrusted(VerificationLevel::UnlinkedDevice(_)) =>
            UtdCause::UnknownDevice,
        _ => if is_missing_key(reason) {
            missing_key_cause(membership, sent, context)
        } else {
            UtdCause::Unknown
        },
    }
}

/// The cause of the failure to decrypt the event with JSON text `event`.
pub open spec fn determined(
    event: Seq<char>,
    context: CryptoContextInfo,
    info: UnableToDecryptInfo,
) -> UtdCause {
    cause_of(event_membership(event), event_time(event), context, info.reason)
}

impl UtdCause {
    /// Decide the cause of this UTD, based on the evidence we have. `raw_event` is the JSON text
    /// of the event.
    pub fn determine(
        raw_event: &str,
        crypto_context_info: CryptoContextInfo,
        unable_to_decrypt_info: &UnableToDecryptInfo,
    ) -> (cause: UtdCause)
        ensures
            cause == determined(raw_event@, crypto_context_info, *unable_to_decrypt_info),
            cause == UtdCause::SentBeforeWeJoined <==> {
                &&& (unable_to_decrypt_info.reason == UnableToDecryptReason::MissingMegolmSession(None)
                    || unable_to_decrypt_info.reason == UnableToDecryptReason::UnknownMegolmMessageIndex)
                &&& event_membership(raw_event@) == Some(Membership::Leave)
            },
            cause == UtdCause::HistoricalMessage <==> {
                &&& (unable_to_decrypt_info.reason == UnableToDecryptReason::MissingMegolmSession(None)
                    || unable_to_decrypt_info.reason == UnableToDecryptReason::UnknownMegolmMessageIndex)
                &&& event_membership(raw_event@) != Some(Membership::Leave)
                &&& crypto_context_info.is_backup_configured
                &&& event_time(raw_event@) matches Some(sent) && sent
                    < crypto_context_info.device_creation_ts.0
            },
            cause == UtdCause::WithheldForUnverifiedOrInsecureDevice <==> unable_to_decrypt_info.reason
                == UnableToDecryptReason::MissingMegolmSession(Some(WithheldCode::Unverified)),
            cause == UtdCause::WithheldBySender <==> (unable_to_decrypt_info.reason matches
                UnableToDecryptReason::MissingMegolmSession(Some(code)) && code
                != WithheldCode::Unverified),
            cause == UtdCause::VerificationViolation <==> unable_to_decrypt_info.reason
                == UnableToDecryptReason::SenderIdentityNotTrusted(
                VerificationLevel::VerificationViolation,
            ),
            cause == UtdCause::UnsignedDevice <==> unable_to_decrypt_info.reason
                == UnableToDecryptReason::SenderIdentityNotTrusted(VerificationLevel::UnsignedDevice),
            cause == UtdCause::UnknownDevice <==> (unable_to_decrypt_info.reason matches
                UnableToDecryptReason::SenderIdentityNotTrusted(level) && level is UnlinkedDevice),
    {
        match &unable_to_decrypt_info.reason {
            UnableToDecryptReason::MissingMegolmSession(None)
            | UnableToDecryptReason::UnknownMegolmMessageIndex => {
                let membership = membership_at_event(raw_event);
                if let Some(Membership::Leave) = membership {
                    // We were not a member - this is the cause of the UTD.
                    return UtdCause::SentBeforeWeJoined;
                }
                UtdCause::from_evidence(
                    membership,
                    time_of_event(raw_event),
                    crypto_context_info,
                    unable_to_decrypt_info,
                )
            },
            // The event has no say in the other cases, so it is not read.
            _ => UtdCause::from_evidence(None, None, crypto_context_info, unable_to_decrypt_info),
        }
    }

    /// Decide the cause of a UTD from what was read from the event: our membership of the room
    /// when it was sent, and the time when that was. Either is `None` if the event does not
    /// tell.
    pub fn from_evidence(
        membership: Option<Membership>,
        origin_server_ts: Option<MilliSecondsSinceUnixEpoch>,
        crypto_context_info: CryptoContextInfo,
        unable_to_decrypt_info: &UnableToDecryptInfo,
    ) -> (cause: UtdCause)
        ensures
            cause == cause_of(
                membership,
                millis(origin_server_ts),
                crypto_context_info,
                unable_to_decrypt_info.reason,
            ),
            cause == UtdCause::SentBeforeWeJoined <==> {
                &&& (unable_to_decrypt_info.reason == UnableToDecryptReason::MissingMegolmSession(None)
                    || unable_to_decrypt_info.reason == UnableToDecryptReason::UnknownMegolmMessageIndex)
                &&& membership == Some(Membership::Leave)
            },
            cause == UtdCause::HistoricalMessage <==> {
                &&& (unable_to_decrypt_info.reason == UnableToDecryptReason::MissingMegolmSession(None)
                    || unable_to_decrypt_info.reason == UnableToDecryptReason::UnknownMegolmMessageIndex)
                &&& membership != Some(Membership::Leave)
                &&& crypto_context_info.is_backup_configured
                &&& origin_server_ts matches Some(sent) && sent.0
                    < crypto_context_info.device_creation_ts.0
            },
            cause == UtdCause::WithheldForUnverifiedOrInsecureDevice <==> unable_to_decrypt_info.reason
                == UnableToDecryptReason::MissingMegolmSession(Some(WithheldCode::Unverified)),
            cause == UtdCause::WithheldBySender <==> (unable_to_decrypt_info.reason matches
                UnableToDecryptReason::MissingMegolmSession(Some(code)) && code
                != WithheldCode::Unverified),
            cause == UtdCause::VerificationViolation <==> unable_to_decrypt_info.reason
                == UnableToDecryptReason::SenderIdentityNotTrusted(
                VerificationLevel::VerificationViolation,
            ),
            cause == UtdCause::UnsignedDevice <==> unable_to_decrypt_info.reason
                == UnableToDecryptReason::SenderIdentityNotTrusted(VerificationLevel::UnsignedDevice),
            cause == UtdCause::UnknownDevice <==> (unable_to_decrypt_info.reason matches
                UnableToDecryptReason::SenderIdentityNotTrusted(level) && level is UnlinkedDevice),
    {
        match &unable_to_decrypt_info.reason {
            UnableToDecryptReason::MissingMegolmSession(Some(reason)) => match reason {
                WithheldCode::Unverified => UtdCause::WithheldForUnverifiedOrInsecureDevice,
                _ => UtdCause::WithheldBySender,
            },
            UnableToDecryptReason::MissingMegolmSession(None)
            | UnableToDecryptReason::UnknownMegolmMessageIndex => {
                if let Some(Membership::Leave) = membership {
                    // We were not a member - this is the cause of the UTD.
                    return UtdCause::SentBeforeWeJoined;
                }
                if let Some(sent) = origin_server_ts {
                    if crypto_context_info.is_backup_configured
                        && sent.0 < crypto_context_info.device_creation_ts.0 {
                        // It's a device-historical message. The key is missing and that is
                        // expected.
                        return UtdCause::HistoricalMessage;
                    }
                }
                UtdCause::Unknown
            },
            UnableToDecryptReason::SenderIdentityNotTrusted(
                VerificationLevel::VerificationViolation,
            ) => UtdCause::VerificationViolation,
            UnableToDecryptReason::SenderIdentityNotTrusted(VerificationLevel::UnsignedDevice) => {
                UtdCause::UnsignedDevice
            },
            UnableToDecryptReason::SenderIdentityNotTrusted(VerificationLevel::UnlinkedDevice(_)) => {
                UtdCause::UnknownDevice
            },
            _ => UtdCause::Unknown,
        }
    }
}

} // verus!
